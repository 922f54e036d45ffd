//! Walking a game directory without listing any directory twice.
//!
//! The walk decides; the caller lists. A [`Walk`] names the directory to list
//! next, the caller lists it and reports what it holds, and the walk answers
//! with the next directory, or with every regular file it has seen once no
//! directory is left. A directory is known by its identity, a text that is the
//! same for every path that leads to the directory (its canonical path, say),
//! so a link that leads back up the tree ends there.

use vstd::prelude::*;
use vstd::set_lib::lemma_len_subset;

use crate::steam_api::paths;
use crate::steam_api::FilePath;
use crate::steam_api::FilePathView;
use crate::text::str_eq;
use crate::Error;
use crate::ErrorView;

verus! {

/// A directory: a path that opens it, and its identity.
#[derive(Debug, PartialEq, Eq)]
pub struct Dir {
    pub path: String,
    pub identity: String,
}

/// The mathematical value of a [`Dir`].
pub struct DirView {
    pub path: Seq<char>,
    pub identity: Seq<char>,
}

impl View for Dir {
    type V = DirView;

    open spec fn view(&self) -> DirView {
        DirView { path: self.path@, identity: self.identity@ }
    }
}

impl Clone for Dir {
    fn clone(&self) -> (r: Self)
        ensures
            r@ == self@,
    {
        Dir { path: self.path.clone(), identity: self.identity.clone() }
    }
}

/// One item of a directory's listing.
#[derive(Debug, PartialEq, Eq)]
pub enum Entry {
    /// A regular file, by its name in the directory.
    File { name: String },
    /// A directory below the listed one.
    Directory { dir: Dir },
}

/// The mathematical value of an [`Entry`].
pub enum EntryView {
    File { name: Seq<char> },
    Directory { dir: DirView },
}

impl View for Entry {
    type V = EntryView;

    open spec fn view(&self) -> EntryView {
        match *self {
            Entry::File { name } => EntryView::File { name: name@ },
            Entry::Directory { dir } => EntryView::Directory { dir: dir@ },
        }
    }
}

/// The values of the items of a listing, in the same order.
pub open spec fn entries(listing: Seq<Entry>) -> Seq<EntryView> {
    listing.map_values(|e: Entry| e@)
}

/// The regular files of a listing of the directory `dir`, in the listing's order.
pub open spec fn files_in(dir: Seq<char>, listing: Seq<EntryView>) -> Seq<FilePathView>
    decreases listing.len(),
{
    if listing.len() == 0 {
        Seq::empty()
    } else {
        let before = files_in(dir, listing.drop_last());
        match listing.last() {
            EntryView::File { name } => before.push(FilePathView { dir, name }),
            EntryView::Directory { .. } => before,
        }
    }
}

/// The directories of a listing, in the listing's order.
pub open spec fn dirs_in(listing: Seq<EntryView>) -> Seq<DirView>
    decreases listing.len(),
{
    if listing.len() == 0 {
        Seq::empty()
    } else {
        let before = dirs_in(listing.drop_last());
        match listing.last() {
            EntryView::File { .. } => before,
            EntryView::Directory { dir } => before.push(dir),
        }
    }
}

/// `stack` without the directories at its end that were listed already: what
/// is left is empty or ends in a directory that was never listed.
pub open spec fn drop_listed(stack: Seq<DirView>, listed: Seq<Seq<char>>) -> Seq<DirView>
    decreases stack.len(),
{
    if stack.len() > 0 && listed.contains(stack.last().identity) {
        drop_listed(stack.drop_last(), listed)
    } else {
        stack
    }
}

/// A walk that waits for the listing of one directory.
#[derive(Debug)]
pub struct Walk {
    /// The directory that the caller is to list now.
    current: Dir,
    /// The directories that were found and not yet handed out. The last one
    /// is the next.
    pending: Vec<Dir>,
    /// The identities of the directories handed out so far, `current` last.
    listed: Vec<String>,
    /// The regular files seen so far.
    files: Vec<FilePath>,
}

/// The mathematical value of a [`Walk`].
pub struct WalkView {
    /// The directory that the caller is to list now.
    pub current: DirView,
    /// The directories that were found and not yet handed out.
    pub pending: Seq<DirView>,
    /// The identities of the directories handed out so far, `current` last.
    pub listed: Seq<Seq<char>>,
    /// The regular files seen so far.
    pub files: Seq<FilePathView>,
}

/// What a walk asks for after a listing.
#[derive(Debug)]
pub enum Progress {
    /// Another directory is to be listed.
    Continue(Walk),
    /// Every directory was listed: these are the regular files, in the
    /// order in which the listings gave them.
    Done(Vec<FilePath>),
    /// A directory could not be listed. The walk ends without a result, so
    /// that no caller takes a part of the tree for the whole.
    Failed(Error),
}

/// The mathematical value of a [`Progress`].
pub enum ProgressView {
    Continue(WalkView),
    Done(Seq<FilePathView>),
    Failed(ErrorView),
}

impl View for Progress {
    type V = ProgressView;

    open spec fn view(&self) -> ProgressView {
        match *self {
            Progress::Continue(walk) => ProgressView::Continue(walk@),
            Progress::Done(files) => ProgressView::Done(paths(files@)),
            Progress::Failed(error) => ProgressView::Failed(error@),
        }
    }
}

/// The state after the listing of `walk.current`, or the end of the walk.
pub open spec fn advanced(
    walk: WalkView,
    listing: Result<Seq<EntryView>, Seq<char>>,
) -> ProgressView {
    match listing {
        Err(message) => ProgressView::Failed(ErrorView::Io(message)),
        Ok(listing) => {
            let files = walk.files + files_in(walk.current.path, listing);
            let stack = drop_listed(walk.pending + dirs_in(listing), walk.listed);
            if stack.len() == 0 {
                ProgressView::Done(files)
            } else {
                ProgressView::Continue(
                    WalkView {
                        current: stack.last(),
                        pending: stack.drop_last(),
                        listed: walk.listed.push(stack.last().identity),
                        files,
                    },
                )
            }
        },
    }
}

/// No directory was handed out twice: the identities of the directories
/// handed out so far are pairwise different, and the last of them is that of
/// the directory to list now.
pub open spec fn listed_once(walk: WalkView) -> bool {
    &&& walk.listed.no_duplicates()
    &&& walk.listed.len() > 0
    &&& walk.listed.last() == walk.current.identity
}

/// What is left of a stack by [`drop_listed`] is its beginning, and it is
/// empty or ends in a directory that is not among `listed`. Every directory
/// that was dropped is among `listed`.
pub proof fn lemma_drop_listed(stack: Seq<DirView>, listed: Seq<Seq<char>>)
    ensures
        drop_listed(stack, listed).len() <= stack.len(),
        drop_listed(stack, listed) == stack.take(drop_listed(stack, listed).len() as int),
        drop_listed(stack, listed).len() > 0 ==> !listed.contains(
            drop_listed(stack, listed).last().identity,
        ),
        forall|i: int|
            drop_listed(stack, listed).len() <= i < stack.len() ==> listed.contains(
                (#[trigger] stack[i]).identity,
            ),
    decreases stack.len(),
{
    if stack.len() > 0 && listed.contains(stack.last().identity) {
        lemma_drop_listed(stack.drop_last(), listed);
        let kept = drop_listed(stack, listed);
        assert(stack.drop_last().take(kept.len() as int) =~= stack.take(kept.len() as int));
        assert forall|i: int| kept.len() <= i < stack.len() implies listed.contains(
            (#[trigger] stack[i]).identity,
        ) by {
            if i < stack.len() - 1 {
                assert(stack.drop_last()[i] == stack[i]);
            }
        }
    } else {
        assert(stack.take(stack.len() as int) =~= stack);
    }
}

/// A walk never lists a directory twice: whatever the listings hold, the
/// directory that [`advanced`] names next was not handed out before, so a link
/// that leads back to a directory already listed is not followed.
pub proof fn lemma_never_listed_twice(
    walk: WalkView,
    listing: Result<Seq<EntryView>, Seq<char>>,
)
    requires
        listed_once(walk),
    ensures
        advanced(walk, listing) matches ProgressView::Continue(next) ==> {
            &&& listed_once(next)
            &&& !walk.listed.contains(next.current.identity)
            &&& next.listed == walk.listed.push(next.current.identity)
        },
{
    if let Ok(shown) = listing {
        lemma_drop_listed(walk.pending + dirs_in(shown), walk.listed);
    }
}

/// The state of a walk that starts at `root`.
pub open spec fn begun(root: DirView) -> WalkView {
    WalkView {
        current: root,
        pending: Seq::empty(),
        listed: seq![root.identity],
        files: Seq::empty(),
    }
}

/// Where a walk stands after the listings `listings` were given to it one
/// after the other, each for the directory that was current then. A walk
/// that is done takes no further listing.
pub open spec fn walked(walk: WalkView, listings: Seq<Seq<EntryView>>) -> ProgressView
    decreases listings.len(),
{
    if listings.len() == 0 {
        ProgressView::Continue(walk)
    } else {
        match walked(walk, listings.drop_last()) {
            ProgressView::Continue(before) => advanced(before, Ok(listings.last())),
            other => other,
        }
    }
}

/// The directory that listing number `i` of a walk from `root` is of.
pub open spec fn listed_at(root: DirView, listings: Seq<Seq<EntryView>>, i: int) -> DirView {
    walked(begun(root), listings.take(i))->Continue_0.current
}

/// Each regular file of a listing is among its files.
proof fn lemma_files_in(dir: Seq<char>, listing: Seq<EntryView>, k: int)
    requires
        0 <= k < listing.len(),
        listing[k] is File,
    ensures
        files_in(dir, listing).contains(FilePathView { dir, name: listing[k]->name }),
    decreases listing.len(),
{
    let before = listing.drop_last();
    let file = FilePathView { dir, name: listing[k]->name };
    if k < listing.len() - 1 {
        lemma_files_in(dir, before, k);
        let found = files_in(dir, before);
        let at = choose|at: int| 0 <= at < found.len() && found[at] == file;
        assert(files_in(dir, listing)[at] == file);
    } else {
        assert(files_in(dir, listing)[files_in(dir, listing).len() - 1] == file);
    }
}

/// Each directory of a listing is among its directories.
proof fn lemma_dirs_in(listing: Seq<EntryView>, k: int)
    requires
        0 <= k < listing.len(),
        listing[k] is Directory,
    ensures
        dirs_in(listing).contains(listing[k]->dir),
    decreases listing.len(),
{
    let before = listing.drop_last();
    let dir = listing[k]->dir;
    if k < listing.len() - 1 {
        lemma_dirs_in(before, k);
        let at = choose|at: int| 0 <= at < dirs_in(before).len() && dirs_in(before)[at] == dir;
        assert(dirs_in(listing)[at] == dir);
    } else {
        assert(dirs_in(listing)[dirs_in(listing).len() - 1] == dir);
    }
}

/// Whether one of `dirs` has the identity `identity`.
pub open spec fn among(dirs: Seq<DirView>, identity: Seq<char>) -> bool {
    exists|p: int| #![trigger dirs[p]] 0 <= p < dirs.len() && dirs[p].identity == identity
}

/// A walk that goes on has taken every listing so far.
proof fn lemma_walked_so_far(root: DirView, listings: Seq<Seq<EntryView>>, i: int)
    requires
        walked(begun(root), listings) is Continue,
        0 <= i <= listings.len(),
    ensures
        walked(begun(root), listings.take(i)) is Continue,
    decreases listings.len(),
{
    if i == listings.len() {
        assert(listings.take(i) =~= listings);
    } else {
        assert(listings.drop_last().take(i) =~= listings.take(i));
        lemma_walked_so_far(root, listings.drop_last(), i);
    }
}

/// What holds of a walk that goes on: it knows the directories it listed,
/// every directory that a listing showed was listed or waits to be, and every
/// file that a listing showed is kept.
proof fn lemma_walked(root: DirView, listings: Seq<Seq<EntryView>>)
    requires
        walked(begun(root), listings) is Continue,
    ensures
        ({
            let walk = walked(begun(root), listings)->Continue_0;
            &&& walk.listed.len() == listings.len() + 1
            &&& forall|j: int|
                0 <= j <= listings.len() ==> #[trigger] walk.listed[j] == listed_at(
                    root,
                    listings,
                    j,
                ).identity
            &&& forall|i: int, k: int|
                0 <= i < listings.len() && 0 <= k < listings[i].len()
                    && #[trigger] listings[i][k] is Directory ==> walk.listed.contains(
                    listings[i][k]->dir.identity,
                ) || among(walk.pending, listings[i][k]->dir.identity)
            &&& forall|i: int, k: int|
                0 <= i < listings.len() && 0 <= k < listings[i].len()
                    && #[trigger] listings[i][k] is File ==> walk.files.contains(
                    FilePathView {
                        dir: listed_at(root, listings, i).path,
                        name: listings[i][k]->name,
                    },
                )
        }),
    decreases listings.len(),
{
    let walk = walked(begun(root), listings)->Continue_0;
    if listings.len() == 0 {
        assert(listings.take(0) =~= listings);
    } else {
        let earlier = listings.drop_last();
        let last = listings.len() - 1;
        let shown = listings[last];
        lemma_walked(root, earlier);
        let before = walked(begun(root), earlier)->Continue_0;
        let stack = before.pending + dirs_in(shown);
        lemma_drop_listed(stack, before.listed);
        let kept = drop_listed(stack, before.listed);
        assert(earlier =~= listings.take(last));
        assert(listings.take(listings.len() as int) =~= listings);
        assert forall|j: int| 0 <= j <= listings.len() implies #[trigger] walk.listed[j]
            == listed_at(root, listings, j).identity by {
            if j < listings.len() {
                assert(earlier.take(j) =~= listings.take(j));
                assert(walk.listed[j] == before.listed[j]);
            }
        }
        assert forall|i: int, k: int|
            0 <= i < listings.len() && 0 <= k < listings[i].len()
                && #[trigger] listings[i][k] is Directory implies walk.listed.contains(
            listings[i][k]->dir.identity,
        ) || among(walk.pending, listings[i][k]->dir.identity) by {
            let identity = listings[i][k]->dir.identity;
            // The directory is in the stack, or it was listed before.
            let in_stack = if i < last {
                assert(earlier[i] == listings[i]);
                if before.listed.contains(identity) {
                    -1
                } else {
                    choose|p: int|
                        #![trigger before.pending[p]]
                        0 <= p < before.pending.len() && before.pending[p].identity == identity
                }
            } else {
                lemma_dirs_in(shown, k);
                let below = dirs_in(shown);
                let p = choose|p: int| 0 <= p < below.len() && below[p] == shown[k]->dir;
                before.pending.len() + p
            };
            if in_stack < 0 {
                let at = choose|at: int|
                    0 <= at < before.listed.len() && before.listed[at] == identity;
                assert(walk.listed[at] == identity);
            } else {
                assert(stack[in_stack].identity == identity);
                if in_stack < kept.len() - 1 {
                    assert(walk.pending[in_stack] == stack[in_stack]);
                } else if in_stack == kept.len() - 1 {
                    assert(walk.listed[walk.listed.len() - 1] == identity);
                } else {
                    let at = choose|at: int|
                        0 <= at < before.listed.len() && before.listed[at] == identity;
                    assert(walk.listed[at] == identity);
                }
            }
        }
        assert forall|i: int, k: int|
            0 <= i < listings.len() && 0 <= k < listings[i].len()
                && #[trigger] listings[i][k] is File implies walk.files.contains(
            FilePathView { dir: listed_at(root, listings, i).path, name: listings[i][k]->name },
        ) by {
            let file = FilePathView {
                dir: listed_at(root, listings, i).path,
                name: listings[i][k]->name,
            };
            assert(earlier.take(i) =~= listings.take(i));
            if i < last {
                assert(earlier[i] == listings[i]);
                assert(before.files.contains(file));
                let at = choose|at: int| 0 <= at < before.files.len() && before.files[at] == file;
                assert(walk.files[at] == file);
            } else {
                lemma_files_in(before.current.path, shown, k);
                let found = files_in(before.current.path, shown);
                let at = choose|at: int| 0 <= at < found.len() && found[at] == file;
                assert(walk.files[before.files.len() + at] == file);
            }
        }
    }
}

/// A walk that is done has left nothing out.
///
/// `listings` are the listings of a walk from `root` that was done with the
/// last of them. Every regular file that a listing showed is among the files
/// of the walk, in the directory that the listing was of; and every directory
/// that a listing showed was listed itself, at whatever depth it was found.
pub proof fn lemma_walk_is_exhaustive(
    root: DirView,
    listings: Seq<Seq<EntryView>>,
    i: int,
    k: int,
)
    requires
        listings.len() > 0,
        walked(begun(root), listings.drop_last()) is Continue,
        walked(begun(root), listings) is Done,
        0 <= i < listings.len(),
        0 <= k < listings[i].len(),
    ensures
        match listings[i][k] {
            EntryView::File { name } => walked(begun(root), listings)->Done_0.contains(
                FilePathView { dir: listed_at(root, listings, i).path, name },
            ),
            EntryView::Directory { dir } => exists|j: int|
                0 <= j < listings.len() && #[trigger] listed_at(root, listings, j).identity
                    == dir.identity,
        },
{
    let earlier = listings.drop_last();
    let last = listings.len() - 1;
    let shown = listings[last];
    lemma_walked(root, earlier);
    let before = walked(begun(root), earlier)->Continue_0;
    let files = walked(begun(root), listings)->Done_0;
    let stack = before.pending + dirs_in(shown);
    lemma_drop_listed(stack, before.listed);
    assert(earlier =~= listings.take(last));
    assert(earlier.take(i) =~= listings.take(i));
    match listings[i][k] {
        EntryView::File { name } => {
            let file = FilePathView { dir: listed_at(root, listings, i).path, name };
            if i < last {
                assert(earlier[i] == listings[i]);
                assert(earlier[i][k] is File);
                assert(before.files.contains(file));
                let at = choose|at: int| 0 <= at < before.files.len() && before.files[at] == file;
                assert(files[at] == file);
            } else {
                lemma_files_in(before.current.path, shown, k);
                let found = files_in(before.current.path, shown);
                let at = choose|at: int| 0 <= at < found.len() && found[at] == file;
                assert(files[before.files.len() + at] == file);
            }
        },
        EntryView::Directory { dir } => {
            // Nothing is left of the stack, so the directory was listed.
            let in_stack = if i < last {
                assert(earlier[i] == listings[i]);
                assert(earlier[i][k] is Directory);
                if before.listed.contains(dir.identity) {
                    -1
                } else {
                    choose|p: int|
                        #![trigger before.pending[p]]
                        0 <= p < before.pending.len() && before.pending[p].identity
                            == dir.identity
                }
            } else {
                lemma_dirs_in(shown, k);
                let p = choose|p: int| 0 <= p < dirs_in(shown).len() && dirs_in(shown)[p] == dir;
                before.pending.len() + p
            };
            if in_stack >= 0 {
                assert(stack[in_stack].identity == dir.identity);
            }
            assert(before.listed.contains(dir.identity));
            let j = choose|j: int| 0 <= j < before.listed.len() && before.listed[j] == dir.identity;
            assert(before.listed[j] == listed_at(root, earlier, j).identity);
            assert(earlier.take(j) =~= listings.take(j));
            assert(listed_at(root, listings, j).identity == dir.identity);
        },
    }
}

/// Whether `identity` is that of `root` or of a directory that one of
/// `listings` shows.
pub open spec fn seen(root: DirView, listings: Seq<Seq<EntryView>>, identity: Seq<char>) -> bool {
    identity == root.identity || exists|i: int, k: int|
        0 <= i < listings.len() && 0 <= k < listings[i].len()
            && (#[trigger] listings[i][k]) is Directory && listings[i][k]->dir.identity
            == identity
}

/// Each directory among those of a listing is an item of the listing.
proof fn lemma_dirs_in_only(listing: Seq<EntryView>, p: int)
    requires
        0 <= p < dirs_in(listing).len(),
    ensures
        exists|k: int|
            0 <= k < listing.len() && (#[trigger] listing[k]) is Directory && listing[k]->dir
                == dirs_in(listing)[p],
    decreases listing.len(),
{
    let before = listing.drop_last();
    if p < dirs_in(before).len() {
        lemma_dirs_in_only(before, p);
        let k = choose|k: int|
            0 <= k < before.len() && (#[trigger] before[k]) is Directory && before[k]->dir
                == dirs_in(before)[p];
        assert(listing[k] == before[k]);
    } else {
        assert(listing[listing.len() - 1] is Directory);
    }
}

/// A walk that goes on has handed out no directory twice, and only
/// directories that were seen: the root, or one that a listing showed.
proof fn lemma_listed_were_seen(root: DirView, listings: Seq<Seq<EntryView>>)
    requires
        walked(begun(root), listings) is Continue,
    ensures
        ({
            let walk = walked(begun(root), listings)->Continue_0;
            &&& listed_once(walk)
            &&& forall|j: int|
                0 <= j < walk.listed.len() ==> seen(root, listings, #[trigger] walk.listed[j])
            &&& forall|p: int|
                0 <= p < walk.pending.len() ==> seen(
                    root,
                    listings,
                    (#[trigger] walk.pending[p]).identity,
                )
        }),
    decreases listings.len(),
{
    let walk = walked(begun(root), listings)->Continue_0;
    if listings.len() > 0 {
        let earlier = listings.drop_last();
        let last = listings.len() - 1;
        let shown = listings[last];
        lemma_listed_were_seen(root, earlier);
        let before = walked(begun(root), earlier)->Continue_0;
        lemma_never_listed_twice(before, Ok(shown));
        let stack = before.pending + dirs_in(shown);
        lemma_drop_listed(stack, before.listed);
        // What was seen in the earlier listings is seen in all of them.
        assert forall|identity: Seq<char>| seen(root, earlier, identity) implies seen(
            root,
            listings,
            identity,
        ) by {
            if identity != root.identity {
                let (i, k) = choose|i: int, k: int|
                    0 <= i < earlier.len() && 0 <= k < earlier[i].len()
                        && (#[trigger] earlier[i][k]) is Directory && earlier[i][k]->dir.identity
                        == identity;
                assert(listings[i][k] == earlier[i][k]);
            }
        }
        assert forall|p: int| 0 <= p < stack.len() implies seen(
            root,
            listings,
            (#[trigger] stack[p]).identity,
        ) by {
            if p < before.pending.len() {
                assert(stack[p] == before.pending[p]);
            } else {
                let q = p - before.pending.len();
                lemma_dirs_in_only(shown, q);
                let k = choose|k: int|
                    0 <= k < shown.len() && (#[trigger] shown[k]) is Directory && shown[k]->dir
                        == dirs_in(shown)[q];
                assert(listings[last][k] is Directory);
            }
        }
        assert forall|j: int| 0 <= j < walk.listed.len() implies seen(
            root,
            listings,
            #[trigger] walk.listed[j],
        ) by {
            if j < before.listed.len() {
                assert(walk.listed[j] == before.listed[j]);
            } else {
                assert(walk.listed[j] == stack[walk.pending.len() as int].identity);
            }
        }
        assert forall|p: int| 0 <= p < walk.pending.len() implies seen(
            root,
            listings,
            (#[trigger] walk.pending[p]).identity,
        ) by {
            assert(walk.pending[p] == stack[p]);
        }
    }
}

/// A walk comes to an end: in a tree with finitely many directories it takes
/// fewer listings than there are directories before the listing that ends it.
///
/// `universe` holds the identity of every directory of the tree. A walk that
/// still goes on after `listings` has handed out one directory more than it
/// took listings, each of them once, so there are at least that many.
pub proof fn lemma_walk_is_bounded(
    root: DirView,
    listings: Seq<Seq<EntryView>>,
    universe: Set<Seq<char>>,
)
    requires
        universe.finite(),
        forall|identity: Seq<char>|
            seen(root, listings, identity) ==> #[trigger] universe.contains(identity),
        walked(begun(root), listings) is Continue,
    ensures
        listings.len() < universe.len(),
{
    let walk = walked(begun(root), listings)->Continue_0;
    lemma_listed_were_seen(root, listings);
    lemma_walked(root, listings);
    walk.listed.unique_seq_to_set();
    let handed_out = walk.listed.to_set();
    assert forall|identity: Seq<char>| handed_out.contains(identity) implies universe.contains(
        identity,
    ) by {
        let j = choose|j: int| 0 <= j < walk.listed.len() && walk.listed[j] == identity;
        assert(seen(root, listings, walk.listed[j]));
    }
    lemma_len_subset(handed_out, universe);
}

/// The value of a listing as the caller reports it.
pub open spec fn reported(listing: Result<Vec<Entry>, String>) -> Result<
    Seq<EntryView>,
    Seq<char>,
> {
    match listing {
        Ok(items) => Ok(entries(items@)),
        Err(message) => Err(message@),
    }
}

/// Whether `identity` is among `listed`.
fn was_listed(listed: &Vec<String>, identity: &str) -> (r: bool)
    ensures
        r == listed@.map_values(|s: String| s@).contains(identity@),
{
    let ghost views = listed@.map_values(|s: String| s@);
    let mut i: usize = 0;
    while i < listed.len()
        invariant
            i <= listed@.len(),
            views == listed@.map_values(|s: String| s@),
            forall|j: int| 0 <= j < i ==> views[j] != identity@,
        decreases listed@.len() - i,
    {
        if str_eq(listed[i].as_str(), identity) {
            assert(views[i as int] == identity@);
            return true;
        }
        i += 1;
    }
    false
}

impl View for Walk {
    type V = WalkView;

    closed spec fn view(&self) -> WalkView {
        WalkView {
            current: self.current@,
            pending: self.pending@.map_values(|d: Dir| d@),
            listed: self.listed@.map_values(|s: String| s@),
            files: paths(self.files@),
        }
    }
}

impl Walk {
    #[verifier::type_invariant]
    spec fn well_formed(&self) -> bool {
        let listed = self.listed@.map_values(|s: String| s@);
        &&& listed.no_duplicates()
        &&& listed.len() > 0
        &&& listed.last() == self.current.identity@
    }

    /// Starts a walk at `root`: the root is the first directory to list.
    pub fn begin(root: Dir) -> (walk: Walk)
        ensures
            walk@ == begun(root@),
    {
        let mut listed: Vec<String> = Vec::new();
        listed.push(root.identity.clone());
        let walk = Walk { current: root, pending: Vec::new(), listed, files: Vec::new() };
        proof {
            let views = walk.listed@.map_values(|s: String| s@);
            assert(views =~= seq![root@.identity]);
            assert(walk.pending@.map_values(|d: Dir| d@) =~= Seq::<DirView>::empty());
            assert(paths(walk.files@) =~= Seq::<FilePathView>::empty());
        }
        walk
    }

    /// The directory that the caller is to list now.
    pub fn current(&self) -> (dir: &Dir)
        ensures
            dir@ == self@.current,
            listed_once(self@),
    {
        proof {
            use_type_invariant(self);
        }
        &self.current
    }

    /// Takes the listing of the current directory and says how the walk goes on.
    ///
    /// The regular files of the listing are added to those seen so far. Of the
    /// directories found so far, the one found last that was never listed is
    /// the next to list; where there is none, the walk is done. A listing that
    /// failed ends the walk with the caller's message.
    pub fn advance(self, listing: Result<Vec<Entry>, String>) -> (progress: Progress)
        ensures
            progress@ == advanced(self@, reported(listing)),
    {
        proof {
            use_type_invariant(&self);
        }
        let ghost start = self@;
        let Walk { current, mut pending, mut listed, mut files } = self;
        let items = match listing {
            Err(message) => {
                return Progress::Failed(Error::Io(message));
            },
            Ok(items) => items,
        };
        let ghost shown = entries(items@);
        let mut i: usize = 0;
        while i < items.len()
            invariant
                i <= items@.len(),
                shown == entries(items@),
                paths(files@) == start.files + files_in(current@.path, shown.take(i as int)),
                pending@.map_values(|d: Dir| d@) == start.pending + dirs_in(shown.take(i as int)),
            decreases items@.len() - i,
        {
            proof {
                let upto = shown.take(i + 1);
                assert(upto.drop_last() =~= shown.take(i as int));
                assert(upto.last() == items@[i as int]@);
            }
            let ghost files_before = paths(files@);
            let ghost pending_before = pending@.map_values(|d: Dir| d@);
            match &items[i] {
                Entry::File { name } => {
                    files.push(FilePath { dir: current.path.clone(), name: name.clone() });
                    assert(paths(files@) =~= files_before.push(
                        FilePathView { dir: current@.path, name: name@ },
                    ));
                },
                Entry::Directory { dir } => {
                    pending.push(dir.clone());
                    assert(pending@.map_values(|d: Dir| d@) =~= pending_before.push(dir@));
                },
            }
            i += 1;
        }
        assert(shown.take(items@.len() as int) =~= shown);
        let ghost stack = start.pending + dirs_in(shown);
        loop
            invariant
                start == self@,
                stack == start.pending + dirs_in(shown),
                listed@.map_values(|s: String| s@) == start.listed,
                start.listed.no_duplicates(),
                paths(files@) == start.files + files_in(current@.path, shown),
                current@ == start.current,
                drop_listed(pending@.map_values(|d: Dir| d@), start.listed) == drop_listed(
                    stack,
                    start.listed,
                ),
                reported(listing) == Ok::<Seq<EntryView>, Seq<char>>(shown),
            decreases pending@.len(),
        {
            let ghost before = pending@.map_values(|d: Dir| d@);
            match pending.pop() {
                None => {
                    assert(before =~= Seq::<DirView>::empty());
                    return Progress::Done(files);
                },
                Some(next) => {
                    assert(before.last() == next@);
                    assert(pending@.map_values(|d: Dir| d@) =~= before.drop_last());
                    if !was_listed(&listed, next.identity.as_str()) {
                        let ghost old_listed = listed@.map_values(|s: String| s@);
                        listed.push(next.identity.clone());
                        proof {
                            let now = listed@.map_values(|s: String| s@);
                            assert(now =~= old_listed.push(next@.identity));
                            assert(now.no_duplicates());
                        }
                        return Progress::Continue(Walk { current: next, pending, listed, files });
                    }
                },
            }
        }
    }
}

} // verus!
