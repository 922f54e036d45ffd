//! What is known of a title: its identifier, its executable and the strategy
//! that patches it.

use vstd::prelude::*;

use crate::patchers::quick::Method;
use crate::text::str_eq;

verus! {

/// The identifier of a title. It has no meaning beyond naming the title.
#[derive(Debug, Clone, Copy, Hash, PartialEq, Eq, Structural, PartialOrd, Ord)]
pub struct AppId(pub u32);

/// The architecture of an executable or a library.
#[derive(Debug, Clone, Copy, PartialEq, Eq, Structural)]
pub enum Arch {
    X86,
    X64,
}

/// The operating system of an executable or a library.
#[derive(Debug, Clone, Copy, PartialEq, Eq, Structural)]
pub enum Os {
    Windows,
    Linux,
}

/// The name of an architecture, as descriptors and scripts spell it.
pub open spec fn arch_name(arch: Arch) -> Seq<char> {
    match arch {
        Arch::X86 => "X86"@,
        Arch::X64 => "X64"@,
    }
}

/// The architecture that `name` is the name of.
pub open spec fn arch_named(name: Seq<char>) -> Option<Arch> {
    if name == "X86"@ {
        Some(Arch::X86)
    } else if name == "X64"@ {
        Some(Arch::X64)
    } else {
        None
    }
}

/// The name of an operating system, as descriptors and scripts spell it.
pub open spec fn os_name(os: Os) -> Seq<char> {
    match os {
        Os::Windows => "Windows"@,
        Os::Linux => "Linux"@,
    }
}

/// The operating system that `name` is the name of.
pub open spec fn os_named(name: Seq<char>) -> Option<Os> {
    if name == "Windows"@ {
        Some(Os::Windows)
    } else if name == "Linux"@ {
        Some(Os::Linux)
    } else {
        None
    }
}

/// Each architecture and each operating system is found again by its name.
pub proof fn lemma_names_are_told_apart(arch: Arch, os: Os)
    ensures
        arch_named(arch_name(arch)) == Some(arch),
        os_named(os_name(os)) == Some(os),
{
    reveal_strlit("X86");
    reveal_strlit("X64");
    reveal_strlit("Windows");
    reveal_strlit("Linux");
    assert("X86"@[1] == '8' && "X64"@[1] == '6');
    assert("Windows"@.len() == 7 && "Linux"@.len() == 5);
}

impl Arch {
    /// The name of this architecture.
    pub fn name(self) -> (name: &'static str)
        ensures
            name@ == arch_name(self),
    {
        match self {
            Arch::X86 => "X86",
            Arch::X64 => "X64",
        }
    }

    /// The architecture of this name, if it is the name of one.
    pub fn from_name(name: &str) -> (arch: Option<Arch>)
        ensures
            arch == arch_named(name@),
    {
        if str_eq(name, "X86") {
            Some(Arch::X86)
        } else if str_eq(name, "X64") {
            Some(Arch::X64)
        } else {
            None
        }
    }
}

impl Os {
    /// The name of this operating system.
    pub fn name(self) -> (name: &'static str)
        ensures
            name@ == os_name(self),
    {
        match self {
            Os::Windows => "Windows",
            Os::Linux => "Linux",
        }
    }

    /// The operating system of this name, if it is the name of one.
    pub fn from_name(name: &str) -> (os: Option<Os>)
        ensures
            os == os_named(name@),
    {
        if str_eq(name, "Windows") {
            Some(Os::Windows)
        } else if str_eq(name, "Linux") {
            Some(Os::Linux)
        } else {
            None
        }
    }
}

/// The strategy that patches a title.
#[derive(Debug, PartialEq, Eq)]
pub enum Patcher {
    Quick {
        method: Method,
    },
    Script {
        /// The path to the script file.
        ///
        /// A relative path is taken below the directory of the descriptor.
        path: String,
    },
}

/// The mathematical value of a [`Patcher`].
pub enum PatcherView {
    Quick { method: Method },
    Script { path: Seq<char> },
}

impl View for Patcher {
    type V = PatcherView;

    open spec fn view(&self) -> PatcherView {
        match *self {
            Patcher::Quick { method } => PatcherView::Quick { method },
            Patcher::Script { path } => PatcherView::Script { path: path@ },
        }
    }
}

impl Clone for Patcher {
    fn clone(&self) -> (r: Self)
        ensures
            r@ == self@,
    {
        match self {
            Patcher::Quick { method } => Patcher::Quick { method: *method },
            Patcher::Script { path } => Patcher::Script { path: path.clone() },
        }
    }
}

/// The Steam metadata of the game.
#[derive(Debug, Clone, Copy, PartialEq, Eq, Structural)]
pub struct SteamMeta {
    /// The Steam AppID of the game.
    pub app_id: AppId,
    /// The last confirmed working build depot.
    pub build_id: u32,
}

/// The executable metadata of the game.
#[derive(Debug, PartialEq, Eq)]
pub struct ExecutableMeta {
    /// The file of the executable, relative to the game directory.
    pub file: String,
    /// The architecture of the executable.
    pub arch: Arch,
    /// The operating system of the executable.
    pub os: Os,
}

/// The mathematical value of an [`ExecutableMeta`].
pub struct ExecutableMetaView {
    pub file: Seq<char>,
    pub arch: Arch,
    pub os: Os,
}

impl View for ExecutableMeta {
    type V = ExecutableMetaView;

    open spec fn view(&self) -> ExecutableMetaView {
        ExecutableMetaView { file: self.file@, arch: self.arch, os: self.os }
    }
}

impl Clone for ExecutableMeta {
    fn clone(&self) -> (r: Self)
        ensures
            r@ == self@,
    {
        ExecutableMeta { file: self.file.clone(), arch: self.arch, os: self.os }
    }
}

/// The metadata of the game.
#[derive(Debug, PartialEq, Eq)]
pub struct GameMeta {
    /// The directory that held the descriptor. It is not part of the
    /// descriptor's text: whoever loads the descriptor sets it.
    pub patcher_dir: String,
    pub steam: SteamMeta,
    pub exe: ExecutableMeta,
    pub patcher: Patcher,
}

/// The mathematical value of a [`GameMeta`].
pub struct GameMetaView {
    pub patcher_dir: Seq<char>,
    pub steam: SteamMeta,
    pub exe: ExecutableMetaView,
    pub patcher: PatcherView,
}

impl View for GameMeta {
    type V = GameMetaView;

    open spec fn view(&self) -> GameMetaView {
        GameMetaView {
            patcher_dir: self.patcher_dir@,
            steam: self.steam,
            exe: self.exe@,
            patcher: self.patcher@,
        }
    }
}

impl Clone for GameMeta {
    fn clone(&self) -> (r: Self)
        ensures
            r@ == self@,
    {
        GameMeta {
            patcher_dir: self.patcher_dir.clone(),
            steam: self.steam,
            exe: self.exe.clone(),
            patcher: self.patcher.clone(),
        }
    }
}

} // verus!
