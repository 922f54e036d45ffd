//! The patch strategies.

use vstd::prelude::*;

use crate::goldberg::Assets;
use crate::goldberg::AssetsView;
use crate::meta::GameMeta;
use crate::meta::GameMetaView;
use crate::meta::Patcher;
use crate::meta::PatcherView;
use crate::plan::writes;
use crate::plan::FileWrite;
use crate::plan::FileWriteView;
use crate::steam_api::libraries_in;
use crate::steam_api::paths;
use crate::steam_api::FilePath;
use crate::steam_api::FilePathView;

pub mod quick;
pub mod script;

verus! {

/// What the caller is to do to patch a title.
#[derive(Debug, PartialEq, Eq)]
pub enum Action {
    /// Make these writes, in order.
    Write(Vec<FileWrite>),
    /// Run the script at `path`. A relative `path` is taken below `dir`, the
    /// directory of the title's descriptor; an absolute one stands as it is.
    RunScript { path: String, dir: String },
}

/// The mathematical value of an [`Action`].
pub enum ActionView {
    Write(Seq<FileWriteView>),
    RunScript { path: Seq<char>, dir: Seq<char> },
}

impl View for Action {
    type V = ActionView;

    open spec fn view(&self) -> ActionView {
        match *self {
            Action::Write(plan) => ActionView::Write(writes(plan@)),
            Action::RunScript { path, dir } => ActionView::RunScript { path: path@, dir: dir@ },
        }
    }
}

/// What the strategy `patcher` of the title `meta` asks for in a game
/// directory with the regular files `files`.
pub open spec fn action_of(
    patcher: PatcherView,
    files: Seq<FilePathView>,
    meta: GameMetaView,
    assets: AssetsView,
) -> ActionView {
    match patcher {
        PatcherView::Quick { method } => ActionView::Write(
            quick::planned(libraries_in(files, meta.exe.arch), meta.steam.app_id, assets),
        ),
        PatcherView::Script { path } => ActionView::RunScript { path, dir: meta.patcher_dir },
    }
}

impl Patcher {
    /// Says how to patch the title `meta` in a game directory with the
    /// regular files `files`.
    ///
    /// A built-in strategy gives its writes. A script is run by the caller,
    /// who is told where it is.
    pub fn run(&self, files: &Vec<FilePath>, meta: &GameMeta, assets: &Assets) -> (action: Action)
        ensures
            action@ == action_of(self@, paths(files@), meta@, assets@),
    {
        match self {
            Patcher::Quick { method } => Action::Write(method.run(files, meta, assets)),
            Patcher::Script { path: script_path } => Action::RunScript {
                path: script_path.clone(),
                dir: meta.patcher_dir.clone(),
            },
        }
    }
}

} // verus!
