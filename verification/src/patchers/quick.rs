//! The built-in strategies, which need no script.

use vstd::prelude::*;
use vstd::slice::slice_to_vec;

use crate::goldberg::lemma_marker_names;
use crate::goldberg::lib_data;
use crate::goldberg::markers;
use crate::goldberg::push_markers;
use crate::goldberg::Assets;
use crate::goldberg::AssetsView;
use crate::goldberg::Goldberg;
use crate::goldberg::CUSTOM_BROADCASTS_TXT;
use crate::goldberg::DISABLE_LAN_ONLY_TXT;
use crate::goldberg::STEAM_APPID_TXT;
use crate::meta::AppId;
use crate::meta::Arch;
use crate::meta::GameMeta;
use crate::plan::lemma_written_again;
use crate::plan::lemma_written_contents;
use crate::plan::lemma_written_files;
use crate::plan::writes;
use crate::plan::written;
use crate::plan::Disk;
use crate::plan::FileWrite;
use crate::plan::FileWriteView;
use crate::steam_api::find_steam_dlls;
use crate::steam_api::libraries;
use crate::steam_api::libraries_in;
use crate::steam_api::paths;
use crate::steam_api::version_of;
use crate::steam_api::FilePath;
use crate::steam_api::FilePathView;
use crate::steam_api::Library;
use crate::steam_api::LibraryView;
use crate::text::str_eq;
use crate::text::texts;

verus! {

/// How a built-in strategy patches a title.
#[derive(Debug, Clone, Copy, PartialEq, Eq, Structural)]
pub enum Method {
    /// Replaces `steam_api(64).dll`/`libsteam_api.so` with the Goldberg emulator.
    Goldberg,
}

/// Whether one of `found` is in the directory `dir`.
pub open spec fn in_dir(found: Seq<LibraryView>, dir: Seq<char>) -> bool {
    exists|i: int| #![trigger found[i]] 0 <= i < found.len() && found[i].path.dir == dir
}

/// The write that puts the matching build of the emulator in the place of
/// `library`.
pub open spec fn emulator(library: LibraryView, assets: AssetsView) -> FileWriteView {
    let goldberg = Goldberg { arch: library.version.arch, os: library.version.os };
    FileWriteView { path: library.path, contents: lib_data(assets, goldberg) }
}

/// The writes that put the emulator in the place of each of `found`, in
/// the order of `found`.
pub open spec fn swaps(found: Seq<LibraryView>, assets: AssetsView) -> Seq<FileWriteView> {
    found.map_values(|library: LibraryView| emulator(library, assets))
}

/// The writes of the marker files beside `found`: three for each directory
/// that holds a library, in the order in which the directories first occur.
pub open spec fn marks(found: Seq<LibraryView>, app_id: AppId) -> Seq<FileWriteView>
    decreases found.len(),
{
    if found.len() == 0 {
        Seq::empty()
    } else {
        let before = found.drop_last();
        let dir = found.last().path.dir;
        if in_dir(before, dir) {
            marks(before, app_id)
        } else {
            marks(before, app_id) + markers(dir, app_id)
        }
    }
}

/// The writes that patch the libraries `found`: first the emulator goes to
/// the very place of each library, then each directory that holds a library
/// gets its markers. So a marker is written only when every library of its
/// directory has been replaced.
pub open spec fn planned(found: Seq<LibraryView>, app_id: AppId, assets: AssetsView) -> Seq<
    FileWriteView,
> {
    swaps(found, assets) + marks(found, app_id)
}

/// The names of the files that patching `found` writes: none where nothing
/// was found, else the three markers and then the name of each library.
pub open spec fn declared(found: Seq<LibraryView>) -> Seq<Seq<char>> {
    if found.len() == 0 {
        Seq::empty()
    } else {
        seq![STEAM_APPID_TXT@, DISABLE_LAN_ONLY_TXT@, CUSTOM_BROADCASTS_TXT@] + found.map_values(
            |library: LibraryView| library.path.name,
        )
    }
}

/// Whether one of the first `upto` libraries of `found` is in the directory `dir`.
fn seen_in_dir(found: &Vec<Library>, upto: usize, dir: &str) -> (r: bool)
    requires
        upto <= found@.len(),
    ensures
        r == in_dir(libraries(found@).take(upto as int), dir@),
{
    let ghost before = libraries(found@).take(upto as int);
    let mut j: usize = 0;
    while j < upto
        invariant
            j <= upto <= found@.len(),
            before == libraries(found@).take(upto as int),
            forall|k: int| 0 <= k < j ==> (#[trigger] before[k]).path.dir != dir@,
        decreases upto - j,
    {
        if str_eq(found[j].path.dir.as_str(), dir) {
            assert(before[j as int].path.dir == dir@);
            return true;
        }
        j += 1;
    }
    false
}

impl Method {
    /// Plans the patch of a game directory.
    ///
    /// `files` is every regular file below the game directory. For each
    /// networking library among them the matching build of the emulator is
    /// written over the library itself. Then the three marker files are
    /// written, once for each directory that holds a library. The caller
    /// makes the writes in the order given.
    pub fn run(self, files: &Vec<FilePath>, meta: &GameMeta, assets: &Assets) -> (plan: Vec<
        FileWrite,
    >)
        ensures
            writes(plan@) == planned(
                libraries_in(paths(files@), meta@.exe.arch),
                meta@.steam.app_id,
                assets@,
            ),
    {
        match self {
            Method::Goldberg => {
                let app_id = meta.steam.app_id;
                let dlls = find_steam_dlls(files, meta.exe.arch);
                let ghost found = libraries(dlls@);
                let mut plan: Vec<FileWrite> = Vec::new();
                let mut i: usize = 0;
                assert(writes(plan@) =~= swaps(found.take(0), assets@));
                while i < dlls.len()
                    invariant
                        i <= dlls@.len(),
                        found == libraries(dlls@),
                        writes(plan@) == swaps(found.take(i as int), assets@),
                    decreases dlls@.len() - i,
                {
                    let dll = &dlls[i];
                    let goldberg = Goldberg::new(dll.version.arch, dll.version.os);
                    let ghost so_far = writes(plan@);
                    plan.push(
                        FileWrite {
                            path: dll.path.clone(),
                            contents: slice_to_vec(goldberg.get_lib_data(assets)),
                        },
                    );
                    assert(writes(plan@) =~= so_far.push(emulator(dll@, assets@)));
                    assert(writes(plan@) =~= swaps(found.take(i + 1), assets@));
                    i += 1;
                }
                assert(found.take(dlls@.len() as int) =~= found);
                let mut k: usize = 0;
                assert(writes(plan@) =~= swaps(found, assets@) + marks(found.take(0), app_id));
                while k < dlls.len()
                    invariant
                        k <= dlls@.len(),
                        found == libraries(dlls@),
                        writes(plan@) == swaps(found, assets@) + marks(
                            found.take(k as int),
                            app_id,
                        ),
                    decreases dlls@.len() - k,
                {
                    let dll = &dlls[k];
                    proof {
                        let upto = found.take(k + 1);
                        assert(upto.drop_last() =~= found.take(k as int));
                        assert(upto.last() == dll@);
                    }
                    if !seen_in_dir(&dlls, k, dll.path.dir.as_str()) {
                        push_markers(&mut plan, dll.path.dir.as_str(), app_id);
                    }
                    k += 1;
                }
                assert(found.take(dlls@.len() as int) =~= found);
                plan
            },
        }
    }

    /// The names of the files that [`Method::run`] would write for this game
    /// directory, without planning the writes: the three marker files and the
    /// name of each library found, or nothing where no library is found.
    pub fn files_added(&self, files: &Vec<FilePath>, arch: Arch) -> (added: Vec<String>)
        ensures
            texts(added@) == declared(libraries_in(paths(files@), arch)),
    {
        match self {
            Method::Goldberg => {
                let steam_dlls = find_steam_dlls(files, arch);
                let ghost found = libraries(steam_dlls@);
                let mut added: Vec<String> = Vec::new();
                if steam_dlls.len() == 0 {
                    assert(texts(added@) =~= Seq::<Seq<char>>::empty());
                    return added;
                }
                added.push(STEAM_APPID_TXT.to_owned());
                added.push(DISABLE_LAN_ONLY_TXT.to_owned());
                added.push(CUSTOM_BROADCASTS_TXT.to_owned());
                let ghost fixed = seq![
                    STEAM_APPID_TXT@,
                    DISABLE_LAN_ONLY_TXT@,
                    CUSTOM_BROADCASTS_TXT@,
                ];
                assert(texts(added@) =~= fixed);
                let mut i: usize = 0;
                while i < steam_dlls.len()
                    invariant
                        i <= steam_dlls@.len(),
                        found == libraries(steam_dlls@),
                        texts(added@) == fixed + found.map_values(
                            |library: LibraryView| library.path.name,
                        ).take(i as int),
                    decreases steam_dlls@.len() - i,
                {
                    let ghost so_far = texts(added@);
                    added.push(steam_dlls[i].path.name.clone());
                    assert(texts(added@) =~= so_far.push(steam_dlls@[i as int]@.path.name));
                    assert(texts(added@) =~= fixed + found.map_values(
                        |library: LibraryView| library.path.name,
                    ).take(i + 1));
                    i += 1;
                }
                assert(found.map_values(|library: LibraryView| library.path.name).take(
                    steam_dlls@.len() as int,
                ) =~= found.map_values(|library: LibraryView| library.path.name));
                added
            },
        }
    }
}

/// Whether `write` puts the emulator in the place of one of `found`.
pub open spec fn swaps_library(
    found: Seq<LibraryView>,
    assets: AssetsView,
    write: FileWriteView,
) -> bool {
    exists|i: int| #![trigger found[i]] 0 <= i < found.len() && write == emulator(found[i], assets)
}

/// Whether `write` is of a marker file in the directory of one of `found`.
pub open spec fn marks_library(
    found: Seq<LibraryView>,
    app_id: AppId,
    write: FileWriteView,
) -> bool {
    exists|i: int|
        #![trigger found[i]]
        0 <= i < found.len() && markers(found[i].path.dir, app_id).contains(write)
}

/// Each write of marker files is of a marker file beside a library that was
/// found.
proof fn lemma_marks_only(found: Seq<LibraryView>, app_id: AppId, j: int)
    requires
        0 <= j < marks(found, app_id).len(),
    ensures
        marks_library(found, app_id, marks(found, app_id)[j]),
    decreases found.len(),
{
    let before = found.drop_last();
    let earlier = marks(before, app_id);
    let write = marks(found, app_id)[j];
    if j < earlier.len() {
        lemma_marks_only(before, app_id, j);
        let i = choose|i: int|
            #![trigger before[i]]
            0 <= i < before.len() && markers(before[i].path.dir, app_id).contains(write);
        assert(found[i] == before[i]);
    } else {
        let last = found.len() - 1;
        let m = markers(found[last].path.dir, app_id);
        assert(write == m[j - earlier.len()]);
        assert(m.contains(write));
    }
}

/// Every marker file beside a library that was found is written.
proof fn lemma_marks_all(found: Seq<LibraryView>, app_id: AppId, i: int)
    requires
        0 <= i < found.len(),
    ensures
        forall|k: int|
            0 <= k < 3 ==> marks(found, app_id).contains(
                #[trigger] markers(found[i].path.dir, app_id)[k],
            ),
    decreases found.len(),
{
    let before = found.drop_last();
    let earlier = marks(before, app_id);
    let all = marks(found, app_id);
    let last = found.len() - 1;
    let dir = found[i].path.dir;
    // Some library of this directory is among `before`, or this is the
    // first one and its markers come last.
    let other = if i < last {
        assert(before[i] == found[i]);
        i
    } else if in_dir(before, dir) {
        choose|other: int|
            #![trigger before[other]]
            0 <= other < before.len() && before[other].path.dir == dir
    } else {
        -1
    };
    if other >= 0 {
        lemma_marks_all(before, app_id, other);
    }
    assert forall|k: int| 0 <= k < 3 implies all.contains(#[trigger] markers(dir, app_id)[k]) by {
        let mark = markers(dir, app_id)[k];
        if other >= 0 {
            assert(mark == markers(before[other].path.dir, app_id)[k]);
            assert(earlier.contains(mark));
            let at = choose|at: int| 0 <= at < earlier.len() && earlier[at] == mark;
            assert(all[at] == mark);
        } else {
            assert(all[earlier.len() + k] == mark);
        }
    }
}

/// Each write of a plan puts the emulator in the place of a library that was
/// found, or is of a marker file beside one.
pub proof fn lemma_planned_only(found: Seq<LibraryView>, app_id: AppId, assets: AssetsView, j: int)
    requires
        0 <= j < planned(found, app_id, assets).len(),
    ensures
        swaps_library(found, assets, planned(found, app_id, assets)[j]) || marks_library(
            found,
            app_id,
            planned(found, app_id, assets)[j],
        ),
{
    if j < found.len() {
        assert(planned(found, app_id, assets)[j] == emulator(found[j], assets));
    } else {
        lemma_marks_only(found, app_id, j - found.len());
    }
}

/// A plan puts the emulator in the place of every library that was found,
/// and writes every marker file beside it.
pub proof fn lemma_planned_all(found: Seq<LibraryView>, app_id: AppId, assets: AssetsView, i: int)
    requires
        0 <= i < found.len(),
    ensures
        planned(found, app_id, assets).contains(emulator(found[i], assets)),
        forall|k: int|
            0 <= k < 3 ==> planned(found, app_id, assets).contains(
                #[trigger] markers(found[i].path.dir, app_id)[k],
            ),
{
    let plan = planned(found, app_id, assets);
    let all = marks(found, app_id);
    assert(plan[i] == emulator(found[i], assets));
    lemma_marks_all(found, app_id, i);
    assert forall|k: int| 0 <= k < 3 implies plan.contains(
        #[trigger] markers(found[i].path.dir, app_id)[k],
    ) by {
        let mark = markers(found[i].path.dir, app_id)[k];
        let at = choose|at: int| 0 <= at < all.len() && all[at] == mark;
        assert(plan[found.len() + at] == mark);
    }
}

/// Each library that was found is one of the files, and its name says what
/// build it is.
pub proof fn lemma_libraries_only(files: Seq<FilePathView>, arch: Arch, i: int)
    requires
        0 <= i < libraries_in(files, arch).len(),
    ensures
        files.contains(libraries_in(files, arch)[i].path),
        version_of(libraries_in(files, arch)[i].path.name, arch) == Some(
            libraries_in(files, arch)[i].version,
        ),
    decreases files.len(),
{
    let before = files.drop_last();
    let earlier = libraries_in(before, arch);
    if i < earlier.len() {
        lemma_libraries_only(before, arch, i);
        let at = choose|at: int| 0 <= at < before.len() && before[at] == earlier[i].path;
        assert(files[at] == earlier[i].path);
    } else {
        assert(files[files.len() - 1] == libraries_in(files, arch)[i].path);
    }
}

/// Each file with the name of a networking library was found.
pub proof fn lemma_libraries_all(files: Seq<FilePathView>, arch: Arch, at: int)
    requires
        0 <= at < files.len(),
        version_of(files[at].name, arch) is Some,
    ensures
        libraries_in(files, arch).contains(
            LibraryView { path: files[at], version: version_of(files[at].name, arch)->0 },
        ),
    decreases files.len(),
{
    let before = files.drop_last();
    let earlier = libraries_in(before, arch);
    let found = libraries_in(files, arch);
    let library = LibraryView { path: files[at], version: version_of(files[at].name, arch)->0 };
    if at < files.len() - 1 {
        lemma_libraries_all(before, arch, at);
        let i = choose|i: int| 0 <= i < earlier.len() && earlier[i] == library;
        assert(found[i] == library);
    } else {
        assert(found[found.len() - 1] == library);
    }
}

/// Two writes to one file carry the same contents, where each puts the
/// emulator in the place of a library or is of a marker file, and the
/// libraries of both were found with the same declared architecture.
proof fn lemma_same_file_same_contents(
    one: Seq<FilePathView>,
    other: Seq<FilePathView>,
    arch: Arch,
    app_id: AppId,
    assets: AssetsView,
    a: FileWriteView,
    b: FileWriteView,
)
    requires
        swaps_library(libraries_in(one, arch), assets, a) || marks_library(
            libraries_in(one, arch),
            app_id,
            a,
        ),
        swaps_library(libraries_in(other, arch), assets, b) || marks_library(
            libraries_in(other, arch),
            app_id,
            b,
        ),
        a.path == b.path,
    ensures
        a.contents == b.contents,
{
    lemma_marker_names(arch);
    let found_a = libraries_in(one, arch);
    let found_b = libraries_in(other, arch);
    if swaps_library(found_a, assets, a) {
        let i = choose|i: int|
            #![trigger found_a[i]]
            0 <= i < found_a.len() && a == emulator(found_a[i], assets);
        lemma_libraries_only(one, arch, i);
        if swaps_library(found_b, assets, b) {
            let j = choose|j: int|
                #![trigger found_b[j]]
                0 <= j < found_b.len() && b == emulator(found_b[j], assets);
            lemma_libraries_only(other, arch, j);
        } else {
            let j = choose|j: int|
                #![trigger found_b[j]]
                0 <= j < found_b.len() && markers(found_b[j].path.dir, app_id).contains(b);
            let m = markers(found_b[j].path.dir, app_id);
            let k = choose|k: int| 0 <= k < m.len() && m[k] == b;
            assert(false);
        }
    } else {
        let i = choose|i: int|
            #![trigger found_a[i]]
            0 <= i < found_a.len() && markers(found_a[i].path.dir, app_id).contains(a);
        let ma = markers(found_a[i].path.dir, app_id);
        let ka = choose|k: int| 0 <= k < ma.len() && ma[k] == a;
        if swaps_library(found_b, assets, b) {
            let j = choose|j: int|
                #![trigger found_b[j]]
                0 <= j < found_b.len() && b == emulator(found_b[j], assets);
            lemma_libraries_only(other, arch, j);
            assert(false);
        } else {
            let j = choose|j: int|
                #![trigger found_b[j]]
                0 <= j < found_b.len() && markers(found_b[j].path.dir, app_id).contains(b);
            let mb = markers(found_b[j].path.dir, app_id);
            let kb = choose|k: int| 0 <= k < mb.len() && mb[k] == b;
            assert(ka == kb);
        }
    }
}

/// Whether a write of `plan` goes to a file called `name`.
pub open spec fn writes_name(plan: Seq<FileWriteView>, name: Seq<char>) -> bool {
    exists|j: int| #![trigger plan[j]] 0 <= j < plan.len() && plan[j].path.name == name
}

/// The names that [`Method::files_added`] gives are the names of the files
/// that [`Method::run`] writes, no more and no less.
pub proof fn lemma_declared_is_written(
    found: Seq<LibraryView>,
    app_id: AppId,
    assets: AssetsView,
    name: Seq<char>,
)
    ensures
        declared(found).contains(name) <==> writes_name(planned(found, app_id, assets), name),
{
    let plan = planned(found, app_id, assets);
    let names = declared(found);
    let own = found.map_values(|library: LibraryView| library.path.name);
    if names.contains(name) {
        let at = choose|at: int| 0 <= at < names.len() && names[at] == name;
        if at < 3 {
            lemma_planned_all(found, app_id, assets, 0);
            let mark = markers(found[0].path.dir, app_id)[at];
            assert(plan.contains(mark));
            let j = choose|j: int| 0 <= j < plan.len() && plan[j] == mark;
            assert(plan[j].path.name == name);
        } else {
            lemma_planned_all(found, app_id, assets, at - 3);
            assert(names[at] == own[at - 3]);
            let swap = emulator(found[at - 3], assets);
            let j = choose|j: int| 0 <= j < plan.len() && plan[j] == swap;
            assert(plan[j].path.name == name);
        }
    }
    if writes_name(plan, name) {
        let j = choose|j: int| #![trigger plan[j]] 0 <= j < plan.len() && plan[j].path.name == name;
        lemma_planned_only(found, app_id, assets, j);
        if swaps_library(found, assets, plan[j]) {
            let i = choose|i: int|
                #![trigger found[i]]
                0 <= i < found.len() && plan[j] == emulator(found[i], assets);
            assert(own[i] == name);
            assert(names[i + 3] == name);
        } else {
            let i = choose|i: int|
                #![trigger found[i]]
                0 <= i < found.len() && markers(found[i].path.dir, app_id).contains(plan[j]);
            let m = markers(found[i].path.dir, app_id);
            let k = choose|k: int| 0 <= k < m.len() && m[k] == plan[j];
            assert(names[k] == name);
        }
    }
}

/// Whether `files` are the regular files of `disk`, in any order.
pub open spec fn lists(files: Seq<FilePathView>, disk: Disk) -> bool {
    forall|path: FilePathView| disk.dom().contains(path) <==> files.contains(path)
}

/// Patching a game directory a second time changes nothing.
///
/// `first` are the regular files of the directory `disk` before the first
/// run, and `second` those after it, each in whatever order a walk gave
/// them. The writes of the second run, made after those of the first, leave
/// every file of the directory with the contents that the first run gave it.
pub proof fn lemma_run_twice(
    first: Seq<FilePathView>,
    second: Seq<FilePathView>,
    arch: Arch,
    app_id: AppId,
    assets: AssetsView,
    disk: Disk,
)
    requires
        lists(first, disk),
        lists(second, written(disk, planned(libraries_in(first, arch), app_id, assets))),
    ensures
        written(
            written(disk, planned(libraries_in(first, arch), app_id, assets)),
            planned(libraries_in(second, arch), app_id, assets),
        ) == written(disk, planned(libraries_in(first, arch), app_id, assets)),
{
    let found = libraries_in(first, arch);
    let again = libraries_in(second, arch);
    let plan = planned(found, app_id, assets);
    let replay = planned(again, app_id, assets);
    let patched = written(disk, plan);
    lemma_marker_names(arch);
    assert forall|j: int, k: int|
        0 <= j < plan.len() && 0 <= k < plan.len() && #[trigger] plan[j].path
            == #[trigger] plan[k].path implies plan[j].contents == plan[k].contents by {
        lemma_planned_only(found, app_id, assets, j);
        lemma_planned_only(found, app_id, assets, k);
        lemma_same_file_same_contents(first, first, arch, app_id, assets, plan[j], plan[k]);
    }
    assert forall|j: int| 0 <= j < replay.len() implies patched.dom().contains(
        #[trigger] replay[j].path,
    ) && patched[replay[j].path] == replay[j].contents by {
        let write = replay[j];
        lemma_planned_only(again, app_id, assets, j);
        // The library that this write belongs to, as the second run found it.
        let i = if swaps_library(again, assets, write) {
            choose|i: int|
                #![trigger again[i]]
                0 <= i < again.len() && write == emulator(again[i], assets)
        } else {
            choose|i: int|
                #![trigger again[i]]
                0 <= i < again.len() && markers(again[i].path.dir, app_id).contains(write)
        };
        let library = again[i];
        lemma_libraries_only(second, arch, i);
        assert(patched.dom().contains(library.path));
        lemma_written_files(disk, plan, library.path);
        // The first run found a library in the same place.
        let same = if disk.dom().contains(library.path) {
            assert(first.contains(library.path));
            let at = choose|at: int| 0 <= at < first.len() && first[at] == library.path;
            lemma_libraries_all(first, arch, at);
            assert(library == LibraryView {
                path: first[at],
                version: version_of(first[at].name, arch)->0,
            });
            assert(found.contains(library));
            choose|n: int| 0 <= n < found.len() && found[n] == library
        } else {
            let p = choose|p: int|
                #![trigger plan[p]]
                0 <= p < plan.len() && plan[p].path == library.path;
            lemma_planned_only(found, app_id, assets, p);
            if swaps_library(found, assets, plan[p]) {
                choose|n: int|
                    #![trigger found[n]]
                    0 <= n < found.len() && plan[p] == emulator(found[n], assets)
            } else {
                let n = choose|n: int|
                    #![trigger found[n]]
                    0 <= n < found.len() && markers(found[n].path.dir, app_id).contains(plan[p]);
                let m = markers(found[n].path.dir, app_id);
                let k = choose|k: int| 0 <= k < m.len() && m[k] == plan[p];
                assert(false);
                n
            }
        };
        assert(0 <= same < found.len() && found[same].path == library.path);
        lemma_planned_all(found, app_id, assets, same);
        // The first run made a write to the same file.
        let twin = if swaps_library(again, assets, write) {
            emulator(found[same], assets)
        } else {
            let m = markers(library.path.dir, app_id);
            let k = choose|k: int| 0 <= k < m.len() && m[k] == write;
            assert(markers(found[same].path.dir, app_id)[k] == write);
            write
        };
        assert(plan.contains(twin));
        assert(twin.path == write.path);
        let p = choose|p: int| 0 <= p < plan.len() && plan[p] == twin;
        lemma_planned_only(found, app_id, assets, p);
        lemma_same_file_same_contents(first, second, arch, app_id, assets, twin, write);
        lemma_written_contents(disk, plan, p);
    }
    lemma_written_again(patched, replay);
}

} // verus!
