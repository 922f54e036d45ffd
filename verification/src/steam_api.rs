//! Finding the networking libraries among the files of a game directory.

use vstd::prelude::*;

use crate::meta::Arch;
use crate::meta::Os;
use crate::text::str_eq;

verus! {

/// The name of the 32-bit Windows library.
pub const STEAM_API_DLL: &'static str = "steam_api.dll";

/// The name of the 64-bit Windows library.
pub const STEAM_API64_DLL: &'static str = "steam_api64.dll";

/// The name of the Linux library, which is the same for both architectures.
pub const LIBSTEAM_API_SO: &'static str = "libsteam_api.so";

/// Where a file is: the directory that lists it, and its name in that
/// directory. The caller joins the two when it opens the file.
#[derive(Debug, PartialEq, Eq)]
pub struct FilePath {
    pub dir: String,
    pub name: String,
}

/// The mathematical value of a [`FilePath`].
pub struct FilePathView {
    pub dir: Seq<char>,
    pub name: Seq<char>,
}

impl View for FilePath {
    type V = FilePathView;

    open spec fn view(&self) -> FilePathView {
        FilePathView { dir: self.dir@, name: self.name@ }
    }
}

impl Clone for FilePath {
    fn clone(&self) -> (r: Self)
        ensures
            r@ == self@,
    {
        FilePath { dir: self.dir.clone(), name: self.name.clone() }
    }
}

/// The values of a sequence of files, in the same order.
pub open spec fn paths(files: Seq<FilePath>) -> Seq<FilePathView> {
    files.map_values(|f: FilePath| f@)
}

/// Which build of the networking library a file is.
#[derive(Debug, Clone, Copy, PartialEq, Eq, Structural)]
pub struct Version {
    pub arch: Arch,
    pub os: Os,
}

impl Version {
    pub fn new(arch: Arch, os: Os) -> (r: Self)
        ensures
            r == (Version { arch, os }),
    {
        Self { arch, os }
    }
}

/// A networking library that was found in a game directory.
#[derive(Debug, PartialEq, Eq)]
pub struct Library {
    pub path: FilePath,
    pub version: Version,
}

/// The mathematical value of a [`Library`].
pub struct LibraryView {
    pub path: FilePathView,
    pub version: Version,
}

impl View for Library {
    type V = LibraryView;

    open spec fn view(&self) -> LibraryView {
        LibraryView { path: self.path@, version: self.version }
    }
}

impl Clone for Library {
    fn clone(&self) -> (r: Self)
        ensures
            r@ == self@,
    {
        Library { path: self.path.clone(), version: self.version }
    }
}

/// The values of a sequence of libraries, in the same order.
pub open spec fn libraries(found: Seq<Library>) -> Seq<LibraryView> {
    found.map_values(|l: Library| l@)
}

/// The build that a file of this name is, if the name is that of a networking
/// library. The name of the Linux library says nothing of its architecture,
/// so there the architecture is the one that the caller declares.
pub open spec fn version_of(name: Seq<char>, arch: Arch) -> Option<Version> {
    if name == STEAM_API_DLL@ {
        Some(Version { arch: Arch::X86, os: Os::Windows })
    } else if name == STEAM_API64_DLL@ {
        Some(Version { arch: Arch::X64, os: Os::Windows })
    } else if name == LIBSTEAM_API_SO@ {
        Some(Version { arch, os: Os::Linux })
    } else {
        None
    }
}

/// Tells from its name whether a file is a networking library, and which build.
pub fn classify(name: &str, arch: Arch) -> (r: Option<Version>)
    ensures
        r == version_of(name@, arch),
{
    if str_eq(name, STEAM_API_DLL) {
        Some(Version::new(Arch::X86, Os::Windows))
    } else if str_eq(name, STEAM_API64_DLL) {
        Some(Version::new(Arch::X64, Os::Windows))
    } else if str_eq(name, LIBSTEAM_API_SO) {
        Some(Version::new(arch, Os::Linux))
    } else {
        None
    }
}

/// The libraries among `files`: one for each file whose name is that of a
/// networking library, in the order of the files.
pub open spec fn libraries_in(files: Seq<FilePathView>, arch: Arch) -> Seq<LibraryView>
    decreases files.len(),
{
    if files.len() == 0 {
        Seq::empty()
    } else {
        let before = libraries_in(files.drop_last(), arch);
        match version_of(files.last().name, arch) {
            Some(version) => before.push(LibraryView { path: files.last(), version }),
            None => before,
        }
    }
}

/// Finds the `steam_api(64).dll`/`libsteam_api.so` files among the regular
/// files of a game directory.
///
/// `files` is every regular file below the game directory, as a walk of the
/// directory gave them. Every file with one of the three names is returned,
/// whatever directory it is in, and no other file is.
pub fn find_steam_dlls(files: &Vec<FilePath>, arch: Arch) -> (found: Vec<Library>)
    ensures
        libraries(found@) == libraries_in(paths(files@), arch),
{
    let mut found: Vec<Library> = Vec::new();
    let mut i: usize = 0;
    while i < files.len()
        invariant
            i <= files@.len(),
            libraries(found@) == libraries_in(paths(files@).take(i as int), arch),
        decreases files@.len() - i,
    {
        let file = &files[i];
        let ghost before = libraries(found@);
        proof {
            let upto = paths(files@).take(i + 1);
            assert(upto.drop_last() =~= paths(files@).take(i as int));
            assert(upto.last() == file@);
        }
        match classify(file.name.as_str(), arch) {
            Some(version) => {
                found.push(Library { path: file.clone(), version });
                assert(libraries(found@) =~= before.push(
                    LibraryView { path: file@, version },
                ));
            },
            None => {},
        }
        i += 1;
    }
    assert(paths(files@).take(files@.len() as int) =~= paths(files@));
    found
}

} // verus!
