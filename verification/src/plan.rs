//! The writes that a strategy asks for, and what they do to a directory tree.

use vstd::prelude::*;

use crate::steam_api::FilePath;
use crate::steam_api::FilePathView;

verus! {

/// One file to write: the whole contents, in place of whatever the file held.
#[derive(Debug, PartialEq, Eq)]
pub struct FileWrite {
    pub path: FilePath,
    pub contents: Vec<u8>,
}

/// The mathematical value of a [`FileWrite`].
pub struct FileWriteView {
    pub path: FilePathView,
    pub contents: Seq<u8>,
}

impl View for FileWrite {
    type V = FileWriteView;

    open spec fn view(&self) -> FileWriteView {
        FileWriteView { path: self.path@, contents: self.contents@ }
    }
}

impl Clone for FileWrite {
    fn clone(&self) -> (r: Self)
        ensures
            r@ == self@,
    {
        FileWrite { path: self.path.clone(), contents: self.contents.clone() }
    }
}

/// The values of a sequence of writes, in the same order.
pub open spec fn writes(plan: Seq<FileWrite>) -> Seq<FileWriteView> {
    plan.map_values(|w: FileWrite| w@)
}

/// The regular files of a directory tree, each with its contents.
pub type Disk = Map<FilePathView, Seq<u8>>;

/// The tree after the writes of `plan` were made in order.
pub open spec fn written(disk: Disk, plan: Seq<FileWriteView>) -> Disk
    decreases plan.len(),
{
    if plan.len() == 0 {
        disk
    } else {
        written(disk, plan.drop_last()).insert(plan.last().path, plan.last().contents)
    }
}

/// Whether a write of `plan` goes to `path`.
pub open spec fn writes_to(plan: Seq<FileWriteView>, path: FilePathView) -> bool {
    exists|i: int| #![trigger plan[i]] 0 <= i < plan.len() && plan[i].path == path
}

/// Writing adds the written files to the tree and removes none.
pub proof fn lemma_written_files(disk: Disk, plan: Seq<FileWriteView>, path: FilePathView)
    ensures
        written(disk, plan).dom().contains(path) <==> disk.dom().contains(path) || writes_to(
            plan,
            path,
        ),
    decreases plan.len(),
{
    if plan.len() > 0 {
        let before = plan.drop_last();
        lemma_written_files(disk, before, path);
        if writes_to(before, path) {
            let i = choose|i: int|
                #![trigger before[i]]
                0 <= i < before.len() && before[i].path == path;
            assert(plan[i] == before[i]);
        }
        if writes_to(plan, path) {
            let i = choose|i: int| #![trigger plan[i]] 0 <= i < plan.len() && plan[i].path == path;
            if i < before.len() {
                assert(before[i] == plan[i]);
            }
        }
        if path == plan.last().path {
            assert(plan[plan.len() - 1].path == path);
        }
    }
}

/// Writes that put into each file what the tree holds there already leave
/// the tree as it is.
pub proof fn lemma_written_again(disk: Disk, plan: Seq<FileWriteView>)
    requires
        forall|i: int|
            0 <= i < plan.len() ==> disk.dom().contains(#[trigger] plan[i].path)
                && disk[plan[i].path] == plan[i].contents,
    ensures
        written(disk, plan) == disk,
    decreases plan.len(),
{
    if plan.len() > 0 {
        let before = plan.drop_last();
        assert forall|i: int| 0 <= i < before.len() implies disk.dom().contains(
            #[trigger] before[i].path,
        ) && disk[before[i].path] == before[i].contents by {
            assert(before[i] == plan[i]);
        }
        lemma_written_again(disk, before);
        assert(disk.dom().contains(plan[plan.len() - 1].path));
        assert(written(disk, plan) =~= disk);
    }
}

/// Where every two writes of a plan to one file carry the same contents, each
/// written file holds afterwards what any write to it carried.
pub proof fn lemma_written_contents(disk: Disk, plan: Seq<FileWriteView>, i: int)
    requires
        0 <= i < plan.len(),
        forall|j: int, k: int|
            0 <= j < plan.len() && 0 <= k < plan.len() && #[trigger] plan[j].path
                == #[trigger] plan[k].path ==> plan[j].contents == plan[k].contents,
    ensures
        written(disk, plan).dom().contains(plan[i].path),
        written(disk, plan)[plan[i].path] == plan[i].contents,
    decreases plan.len(),
{
    let before = plan.drop_last();
    let last = plan.len() - 1;
    if plan[i].path == plan[last].path {
        assert(plan[i].contents == plan[last].contents);
    } else {
        assert forall|j: int, k: int|
            0 <= j < before.len() && 0 <= k < before.len() && #[trigger] before[j].path
                == #[trigger] before[k].path implies before[j].contents
            == before[k].contents by {
            assert(before[j] == plan[j]);
            assert(before[k] == plan[k]);
        }
        assert(before[i] == plan[i]);
        lemma_written_contents(disk, before, i);
    }
}

} // verus!
