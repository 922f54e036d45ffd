//! Finding the descriptor to patch a game directory with.
//!
//! A title that the caller names is looked up in the registry. Else the first
//! descriptor of the registry whose executable is in the game directory is
//! taken. Where there is none, a descriptor is made up for the title, with an
//! identifier that is made from the names of its files.

use vstd::prelude::*;

use crate::fingerprint::fingerprint;
use crate::fingerprint::fingerprint_of;
use crate::fingerprint::lemma_fingerprint_of_set;
use crate::goldberg::lemma_marker_names;
use crate::goldberg::AssetsView;
use crate::fingerprint::name_set;
use crate::meta::AppId;
use crate::meta::Arch;
use crate::meta::ExecutableMeta;
use crate::meta::ExecutableMetaView;
use crate::meta::GameMeta;
use crate::meta::GameMetaView;
use crate::meta::Os;
use crate::meta::Patcher;
use crate::meta::PatcherView;
use crate::meta::SteamMeta;
use crate::patchers::quick::declared;
use crate::patchers::quick::lemma_declared_is_written;
use crate::patchers::quick::lemma_libraries_all;
use crate::patchers::quick::lemma_libraries_only;
use crate::patchers::quick::lists;
use crate::patchers::quick::planned;
use crate::patchers::quick::writes_name;
use crate::patchers::quick::Method;
use crate::plan::lemma_written_files;
use crate::plan::writes_to;
use crate::plan::written;
use crate::plan::Disk;
use crate::registry::descriptors;
use crate::registry::holds;
use crate::registry::lookup;
use crate::registry::Registry;
use crate::steam_api::libraries_in;
use crate::steam_api::paths;
use crate::steam_api::FilePath;
use crate::steam_api::FilePathView;
use crate::steam_api::LibraryView;
use crate::text::texts;
use crate::Error;
use crate::ErrorView;

verus! {

/// Whether the executable of the descriptor at place `i` of the registry is
/// in the game directory. `present` holds the caller's finding for each
/// descriptor, in the order of the registry; a descriptor that `present` does
/// not reach counts as absent.
pub open spec fn is_present(present: Seq<bool>, i: int) -> bool {
    0 <= i < present.len() && present[i]
}

/// Whether `i` is the place of the first descriptor whose executable is in
/// the game directory.
pub open spec fn is_first_present(count: nat, present: Seq<bool>, i: int) -> bool {
    &&& 0 <= i < count
    &&& is_present(present, i)
    &&& forall|j: int| 0 <= j < i ==> !is_present(present, j)
}

/// The first descriptor whose executable is in the game directory.
pub open spec fn signature_match(entries: Seq<GameMetaView>, present: Seq<bool>) -> Option<
    GameMetaView,
> {
    if exists|i: int| is_first_present(entries.len(), present, i) {
        Some(entries[choose|i: int| is_first_present(entries.len(), present, i)])
    } else {
        None
    }
}

/// The names that stand for a game directory with the regular files `files`:
/// the name of each file, and the names of the files that the strategy
/// `method` would write there for a 64-bit title.
pub open spec fn manifest(files: Seq<FilePathView>, method: Method) -> Seq<Seq<char>> {
    files.map_values(|file: FilePathView| file.name) + declared(libraries_in(files, Arch::X64))
}

/// The descriptor that is made up for a title that the registry does not
/// know, patched by the strategy `method`: its identifier is the fingerprint
/// of the manifest, its build revision zero, its executable without a name,
/// 64-bit and for Windows, and it was loaded from no directory.
pub open spec fn fallback(files: Seq<FilePathView>, method: Method) -> GameMetaView {
    GameMetaView {
        patcher_dir: Seq::empty(),
        steam: SteamMeta {
            app_id: AppId(fingerprint_of(name_set(manifest(files, method)))),
            build_id: 0,
        },
        exe: ExecutableMetaView { file: Seq::empty(), arch: Arch::X64, os: Os::Windows },
        patcher: PatcherView::Quick { method },
    }
}

/// The descriptor to patch a game directory with.
///
/// A title that the caller names is the one that the registry holds under
/// that identifier, and it is an error if the registry holds none: what is
/// in the game directory plays no part then. Without a name, the first
/// descriptor whose executable is in the game directory is taken, and the
/// made-up descriptor where there is none.
pub open spec fn resolved(
    entries: Seq<GameMetaView>,
    app_id: Option<AppId>,
    present: Seq<bool>,
    files: Seq<FilePathView>,
    method: Method,
) -> Result<GameMetaView, ErrorView> {
    match app_id {
        Some(app_id) => match lookup(entries, app_id) {
            Some(meta) => Ok(meta),
            None => Err(ErrorView::UnknownAppId(app_id)),
        },
        None => match signature_match(entries, present) {
            Some(meta) => Ok(meta),
            None => Ok(fallback(files, method)),
        },
    }
}

/// A title that the caller names is found or not by the registry alone: what
/// the game directory holds, and the strategy for unknown titles, play no
/// part. So a name goes before an executable that is in the game directory.
pub proof fn lemma_named_title_decides(
    entries: Seq<GameMetaView>,
    app_id: AppId,
    present: Seq<bool>,
    files: Seq<FilePathView>,
    method: Method,
    other_present: Seq<bool>,
    other_files: Seq<FilePathView>,
    other_method: Method,
)
    ensures
        resolved(entries, Some(app_id), present, files, method) == resolved(
            entries,
            Some(app_id),
            other_present,
            other_files,
            other_method,
        ),
{
}

/// Resolving fails only where the caller names a title and the registry does
/// not hold it. Without a name there is always a descriptor.
pub proof fn lemma_resolution_fails_only_for_unknown_name(
    entries: Seq<GameMetaView>,
    app_id: Option<AppId>,
    present: Seq<bool>,
    files: Seq<FilePathView>,
    method: Method,
)
    ensures
        resolved(entries, app_id, present, files, method) is Err <==> app_id is Some && !holds(
            entries,
            app_id->0,
        ),
{
}

/// The value of a descriptor that may be absent.
pub open spec fn meta_view(meta: Option<GameMeta>) -> Option<GameMetaView> {
    match meta {
        Some(meta) => Some(meta@),
        None => None,
    }
}

/// The value of what resolving gave.
pub open spec fn resolution(r: Result<GameMeta, Error>) -> Result<GameMetaView, ErrorView> {
    match r {
        Ok(meta) => Ok(meta@),
        Err(error) => Err(error@),
    }
}

/// Finds the first descriptor of the registry whose executable is in the
/// game directory.
///
/// `present` says for each descriptor of the registry, in the registry's
/// order, whether the caller found its executable in the game directory.
pub fn match_signature(registry: &Registry, present: &Vec<bool>) -> (found: Option<GameMeta>)
    ensures
        meta_view(found) == signature_match(registry@, present@),
{
    let entries = registry.entries();
    let ghost count = entries@.len();
    let mut i: usize = 0;
    while i < entries.len() && i < present.len()
        invariant
            count == entries@.len(),
            count == registry@.len(),
            descriptors(entries@) == registry@,
            forall|j: int| 0 <= j < i ==> !is_present(present@, j),
        decreases entries@.len() - i,
    {
        if present[i] {
            proof {
                assert(is_first_present(count, present@, i as int));
                let first = choose|k: int| is_first_present(count, present@, k);
                assert(first == i) by {
                    if first < i {
                        assert(!is_present(present@, first));
                    } else if i < first {
                        assert(!is_present(present@, i as int));
                    }
                }
            }
            return Some(entries[i].clone());
        }
        i += 1;
    }
    proof {
        assert forall|k: int| !is_first_present(count, present@, k) by {
            if is_first_present(count, present@, k) {
                assert(k < i);
            }
        }
    }
    None
}

/// Makes up a descriptor for a title that the registry does not know.
///
/// `files` is every regular file below the game directory. The identifier
/// is the fingerprint of their names together with the names of the files
/// that the strategy would write, so it is the same on every run and stays
/// the same once the title is patched.
pub fn fallback_meta(files: &Vec<FilePath>, method: Method) -> (meta: GameMeta)
    ensures
        meta@ == fallback(paths(files@), method),
{
    let ghost own = paths(files@).map_values(|file: FilePathView| file.name);
    let mut names: Vec<String> = Vec::new();
    let mut i: usize = 0;
    assert(texts(names@) =~= own.take(0));
    while i < files.len()
        invariant
            i <= files@.len(),
            own == paths(files@).map_values(|file: FilePathView| file.name),
            texts(names@) == own.take(i as int),
        decreases files@.len() - i,
    {
        let ghost so_far = texts(names@);
        names.push(files[i].name.clone());
        assert(own[i as int] == paths(files@)[i as int].name);
        assert(texts(names@) =~= so_far.push(files@[i as int]@.name));
        assert(texts(names@) =~= own.take(i + 1));
        i += 1;
    }
    assert(own.take(files@.len() as int) =~= own);
    let added = method.files_added(files, Arch::X64);
    let mut k: usize = 0;
    assert(texts(names@) =~= own + texts(added@).take(0));
    while k < added.len()
        invariant
            k <= added@.len(),
            texts(names@) == own + texts(added@).take(k as int),
        decreases added@.len() - k,
    {
        let ghost so_far = texts(names@);
        names.push(added[k].clone());
        assert(texts(names@) =~= so_far.push(added@[k as int]@));
        assert(texts(added@).take(k + 1) =~= texts(added@).take(k as int).push(added@[k as int]@));
        assert(texts(names@) =~= own + texts(added@).take(k + 1));
        k += 1;
    }
    assert(texts(added@).take(added@.len() as int) =~= texts(added@));
    let app_id = fingerprint(&names);
    let meta = GameMeta {
        patcher_dir: String::new(),
        steam: SteamMeta { app_id, build_id: 0 },
        exe: ExecutableMeta { file: String::new(), arch: Arch::X64, os: Os::Windows },
        patcher: Patcher::Quick { method },
    };
    assert(meta@.patcher_dir =~= Seq::<char>::empty());
    assert(meta@.exe.file =~= Seq::<char>::empty());
    meta
}

/// Finds the descriptor to patch a game directory with.
///
/// `app_id` is the title that the caller names, if it names one. `present`
/// says for each descriptor of the registry, in the registry's order, whether
/// its executable is in the game directory. `files` is every regular file
/// below the game directory, and `method` the strategy for a title that the
/// registry does not know.
///
/// Fails only where the caller names a title that the registry does not hold.
pub fn resolve(
    registry: &Registry,
    app_id: Option<AppId>,
    present: &Vec<bool>,
    files: &Vec<FilePath>,
    method: Method,
) -> (r: Result<GameMeta, Error>)
    ensures
        resolution(r) == resolved(registry@, app_id, present@, paths(files@), method),
{
    match app_id {
        Some(app_id) => match registry.get(app_id) {
            Some(meta) => Ok(meta.clone()),
            None => Err(Error::UnknownAppId(app_id)),
        },
        None => match match_signature(registry, present) {
            Some(meta) => Ok(meta),
            None => Ok(fallback_meta(files, method)),
        },
    }
}

/// Patching a title that the registry does not know does not change the
/// descriptor that is made up for it.
///
/// `first` are the regular files of the game directory `disk` before the
/// title is patched as the made-up descriptor says, and `second` those
/// after. Both give the same descriptor, so a later run finds the title
/// under the identifier that the first run wrote into its marker file.
pub proof fn lemma_fallback_survives_patch(
    first: Seq<FilePathView>,
    second: Seq<FilePathView>,
    method: Method,
    app_id: AppId,
    assets: AssetsView,
    disk: Disk,
)
    requires
        lists(first, disk),
        lists(second, written(disk, planned(libraries_in(first, Arch::X64), app_id, assets))),
    ensures
        fallback(second, method) == fallback(first, method),
{
    let found = libraries_in(first, Arch::X64);
    let again = libraries_in(second, Arch::X64);
    let plan = planned(found, app_id, assets);
    let patched = written(disk, plan);
    let name_of = |file: FilePathView| file.name;
    let library_name = |library: LibraryView| library.path.name;
    let before = manifest(first, method);
    let after = manifest(second, method);
    let own_before = first.map_values(name_of);
    let own_after = second.map_values(name_of);
    // Every name of a file of the patched directory is in the manifest of
    // the directory as it was.
    assert forall|i: int| 0 <= i < second.len() implies before.contains(
        #[trigger] second[i].name,
    ) by {
        let path = second[i];
        assert(second.contains(path));
        assert(patched.dom().contains(path));
        lemma_written_files(disk, plan, path);
        if disk.dom().contains(path) {
            assert(first.contains(path));
            let at = choose|at: int| 0 <= at < first.len() && first[at] == path;
            assert(own_before[at] == path.name);
            assert(before[at] == path.name);
        } else {
            let p = choose|p: int|
                #![trigger plan[p]]
                0 <= p < plan.len() && plan[p].path == path;
            assert(writes_name(plan, path.name));
            lemma_declared_is_written(found, app_id, assets, path.name);
            let names = declared(found);
            let at = choose|at: int| 0 <= at < names.len() && names[at] == path.name;
            assert(before[own_before.len() + at] == path.name);
        }
    }
    assert forall|x: Seq<char>| before.to_set().contains(x) <==> after.to_set().contains(x) by {
        if after.contains(x) {
            let at = choose|at: int| 0 <= at < after.len() && after[at] == x;
            if at < own_after.len() {
                assert(x == second[at].name);
            } else {
                let d = at - own_after.len();
                assert(x == declared(again)[d]);
                lemma_libraries_only(second, Arch::X64, 0);
                let some = choose|some: int|
                    0 <= some < second.len() && second[some] == again[0].path;
                assert(before.contains(second[some].name));
                if d < 3 {
                    // A library was there before the patch, so the markers
                    // were in the manifest already.
                    let lib = again[0].path.name;
                    let was = choose|was: int| 0 <= was < before.len() && before[was] == lib;
                    lemma_marker_names(Arch::X64);
                    if was < own_before.len() {
                        assert(first[was].name == lib);
                        lemma_libraries_all(first, Arch::X64, was);
                    }
                    assert(found.len() > 0);
                    assert(before[own_before.len() + d] == x);
                } else {
                    lemma_libraries_only(second, Arch::X64, d - 3);
                    let lib = again[d - 3];
                    assert(again.map_values(library_name)[d - 3] == x);
                    let here = choose|here: int|
                        0 <= here < second.len() && second[here] == lib.path;
                    assert(before.contains(second[here].name));
                }
            }
        }
        if before.contains(x) {
            let at = choose|at: int| 0 <= at < before.len() && before[at] == x;
            let path = if at < own_before.len() {
                assert(x == first[at].name);
                assert(first.contains(first[at]));
                first[at]
            } else {
                assert(declared(found)[at - own_before.len()] == x);
                assert(declared(found).contains(x));
                lemma_declared_is_written(found, app_id, assets, x);
                let j = choose|j: int|
                    #![trigger plan[j]]
                    0 <= j < plan.len() && plan[j].path.name == x;
                assert(writes_to(plan, plan[j].path));
                plan[j].path
            };
            lemma_written_files(disk, plan, path);
            assert(patched.dom().contains(path));
            assert(second.contains(path));
            let here = choose|here: int| 0 <= here < second.len() && second[here] == path;
            assert(own_after[here] == x);
            assert(after[here] == x);
        }
    }
    assert(before.to_set() =~= after.to_set());
    lemma_fingerprint_of_set(before, after);
}

} // verus!
