//! Installing the Goldberg emulator in place of the networking library.

use vstd::prelude::*;
use vstd::slice::slice_to_vec;

use crate::meta::AppId;
use crate::meta::Arch;
use crate::meta::Os;
use crate::plan::writes;
use crate::plan::FileWrite;
use crate::plan::FileWriteView;
use crate::steam_api::FilePath;
use crate::steam_api::version_of;
use crate::steam_api::FilePathView;
use crate::steam_api::LIBSTEAM_API_SO;
use crate::steam_api::STEAM_API64_DLL;
use crate::steam_api::STEAM_API_DLL;
use crate::text::decimal;
use crate::text::decimal_text;

verus! {

/// The marker file that tells the emulator the identifier of the title.
pub const STEAM_APPID_TXT: &'static str = "steam_appid.txt";

/// The marker file that lets the emulator talk beyond the local network.
/// Goldberg disables non-LAN connections by default. This file disables that
/// behavior.
pub const DISABLE_LAN_ONLY_TXT: &'static str = "disable_lan_only.txt";

/// The marker file that lists further addresses to broadcast to.
pub const CUSTOM_BROADCASTS_TXT: &'static str = "custom_broadcasts.txt";

/// The builds of the emulator, one for each operating system and
/// architecture. The bytes mean nothing to this crate: it only picks among
/// them.
#[derive(Debug, PartialEq, Eq)]
pub struct Assets {
    pub windows_x86: Vec<u8>,
    pub windows_x64: Vec<u8>,
    pub linux_x86: Vec<u8>,
    pub linux_x64: Vec<u8>,
}

/// The mathematical value of [`Assets`].
pub struct AssetsView {
    pub windows_x86: Seq<u8>,
    pub windows_x64: Seq<u8>,
    pub linux_x86: Seq<u8>,
    pub linux_x64: Seq<u8>,
}

impl View for Assets {
    type V = AssetsView;

    open spec fn view(&self) -> AssetsView {
        AssetsView {
            windows_x86: self.windows_x86@,
            windows_x64: self.windows_x64@,
            linux_x86: self.linux_x86@,
            linux_x64: self.linux_x64@,
        }
    }
}

/// One build of the emulator, by what it runs on.
#[derive(Debug, Clone, Copy, PartialEq, Eq, Structural)]
pub struct Goldberg {
    pub arch: Arch,
    pub os: Os,
}

/// The bytes of the build `goldberg` among `assets`.
pub open spec fn lib_data(assets: AssetsView, goldberg: Goldberg) -> Seq<u8> {
    match (goldberg.os, goldberg.arch) {
        (Os::Windows, Arch::X86) => assets.windows_x86,
        (Os::Windows, Arch::X64) => assets.windows_x64,
        (Os::Linux, Arch::X86) => assets.linux_x86,
        (Os::Linux, Arch::X64) => assets.linux_x64,
    }
}

/// The name under which a game looks for the build `goldberg`.
pub open spec fn lib_name(goldberg: Goldberg) -> Seq<char> {
    match goldberg.os {
        Os::Windows => match goldberg.arch {
            Arch::X86 => STEAM_API_DLL@,
            Arch::X64 => STEAM_API64_DLL@,
        },
        Os::Linux => LIBSTEAM_API_SO@,
    }
}

impl Goldberg {
    pub fn new(arch: Arch, os: Os) -> (r: Self)
        ensures
            r == (Goldberg { arch, os }),
    {
        Self { arch, os }
    }

    /// The bytes of this build.
    pub fn get_lib_data(self, assets: &Assets) -> (data: &[u8])
        ensures
            data@ == lib_data(assets@, self),
    {
        match (self.os, self.arch) {
            (Os::Windows, Arch::X86) => assets.windows_x86.as_slice(),
            (Os::Windows, Arch::X64) => assets.windows_x64.as_slice(),
            (Os::Linux, Arch::X86) => assets.linux_x86.as_slice(),
            (Os::Linux, Arch::X64) => assets.linux_x64.as_slice(),
        }
    }

    /// The name under which a game looks for this build.
    pub fn file_name(self) -> (name: &'static str)
        ensures
            name@ == lib_name(self),
    {
        match self.os {
            Os::Windows => match self.arch {
                Arch::X86 => STEAM_API_DLL,
                Arch::X64 => STEAM_API64_DLL,
            },
            Os::Linux => LIBSTEAM_API_SO,
        }
    }
}

/// What the marker files of a patched directory hold: the identifier of the
/// title as a decimal numeral, the digit one, and nothing, since no further
/// address is broadcast to.
pub open spec fn markers(dir: Seq<char>, app_id: AppId) -> Seq<FileWriteView> {
    seq![
        FileWriteView {
            path: FilePathView { dir, name: STEAM_APPID_TXT@ },
            contents: decimal(app_id.0 as nat),
        },
        FileWriteView {
            path: FilePathView { dir, name: DISABLE_LAN_ONLY_TXT@ },
            contents: seq![49u8],
        },
        FileWriteView {
            path: FilePathView { dir, name: CUSTOM_BROADCASTS_TXT@ },
            contents: Seq::empty(),
        },
    ]
}

/// The three marker files have names of their own: different from one
/// another, and none is the name of a networking library.
pub proof fn lemma_marker_names(arch: Arch)
    ensures
        STEAM_APPID_TXT@ != DISABLE_LAN_ONLY_TXT@,
        STEAM_APPID_TXT@ != CUSTOM_BROADCASTS_TXT@,
        DISABLE_LAN_ONLY_TXT@ != CUSTOM_BROADCASTS_TXT@,
        version_of(STEAM_APPID_TXT@, arch) is None,
        version_of(DISABLE_LAN_ONLY_TXT@, arch) is None,
        version_of(CUSTOM_BROADCASTS_TXT@, arch) is None,
{
    reveal_strlit("steam_api.dll");
    reveal_strlit("steam_api64.dll");
    reveal_strlit("libsteam_api.so");
    reveal_strlit("steam_appid.txt");
    reveal_strlit("disable_lan_only.txt");
    reveal_strlit("custom_broadcasts.txt");
    assert(STEAM_APPID_TXT@.len() == 15);
    assert(DISABLE_LAN_ONLY_TXT@.len() == 20);
    assert(CUSTOM_BROADCASTS_TXT@.len() == 21);
    assert(STEAM_API_DLL@.len() == 13);
    assert(STEAM_API64_DLL@[8] == 'i');
    assert(LIBSTEAM_API_SO@[0] == 'l');
    assert(STEAM_APPID_TXT@[8] == 'p');
    assert(STEAM_APPID_TXT@[0] == 's');
}

/// The name of a networking library is the name under which a game looks
/// for the build of the emulator that takes its place.
pub proof fn lemma_library_name(name: Seq<char>, arch: Arch)
    ensures
        version_of(name, arch) matches Some(version) ==> lib_name(
            Goldberg { arch: version.arch, os: version.os },
        ) == name,
{
}

/// The writes that install the build `goldberg` in `dir`: the library first,
/// then the three marker files.
pub open spec fn installed(
    dir: Seq<char>,
    goldberg: Goldberg,
    app_id: AppId,
    assets: AssetsView,
) -> Seq<FileWriteView> {
    seq![
        FileWriteView {
            path: FilePathView { dir, name: lib_name(goldberg) },
            contents: lib_data(assets, goldberg),
        },
    ] + markers(dir, app_id)
}

/// Adds the writes of the three marker files of `dir` to `plan`.
pub(crate) fn push_markers(plan: &mut Vec<FileWrite>, dir: &str, app_id: AppId)
    ensures
        writes(final(plan)@) == writes(old(plan)@) + markers(dir@, app_id),
{
    let ghost before = writes(plan@);
    plan.push(
        FileWrite {
            path: FilePath { dir: dir.to_owned(), name: STEAM_APPID_TXT.to_owned() },
            contents: decimal_text(app_id.0),
        },
    );
    let mut one: Vec<u8> = Vec::new();
    one.push(49u8);
    plan.push(
        FileWrite {
            path: FilePath { dir: dir.to_owned(), name: DISABLE_LAN_ONLY_TXT.to_owned() },
            contents: one,
        },
    );
    plan.push(
        FileWrite {
            path: FilePath { dir: dir.to_owned(), name: CUSTOM_BROADCASTS_TXT.to_owned() },
            contents: Vec::new(),
        },
    );
    proof {
        let added = markers(dir@, app_id);
        let at = before.len() as int;
        assert(plan@[at]@ == added[0]) by {
            assert(plan@[at]@.contents =~= added[0].contents);
        }
        assert(plan@[at + 1]@ == added[1]) by {
            assert(plan@[at + 1]@.contents =~= added[1].contents);
        }
        assert(plan@[at + 2]@ == added[2]) by {
            assert(plan@[at + 2]@.contents =~= added[2].contents);
        }
        assert(writes(plan@) =~= before + added);
    }
}

/// Installs the Goldberg Emulator in the directory `dir`.
///
/// Returns the writes to make, in this order: the library, under the name
/// that goes with the build, then `steam_appid.txt`, `disable_lan_only.txt`
/// and `custom_broadcasts.txt`. The markers come after the library, so that
/// no directory is ever seen with markers and without its library.
pub fn install(dir: &str, goldberg: Goldberg, app_id: AppId, assets: &Assets) -> (plan: Vec<
    FileWrite,
>)
    ensures
        writes(plan@) == installed(dir@, goldberg, app_id, assets@),
{
    let mut plan: Vec<FileWrite> = Vec::new();
    plan.push(
        FileWrite {
            path: FilePath { dir: dir.to_owned(), name: goldberg.file_name().to_owned() },
            contents: slice_to_vec(goldberg.get_lib_data(assets)),
        },
    );
    let ghost first = writes(plan@);
    push_markers(&mut plan, dir, app_id);
    assert(first =~= seq![
        FileWriteView {
            path: FilePathView { dir: dir@, name: lib_name(goldberg) },
            contents: lib_data(assets@, goldberg),
        },
    ]);
    plan
}

} // verus!
