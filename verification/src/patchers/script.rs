//! The strategy that leaves the patching to a script.
//!
//! The interpreter is the caller's. It offers a script two functions and no
//! other way to the disk: one finds the networking libraries, the other
//! installs the emulator. A [`ScriptRun`] stands behind both. It does not
//! write: it keeps the writes that the script asked for, and
//! [`run_patcher`] hands them out only if the script came to its end. A
//! script that fails leaves the game directory as it was.

use vstd::prelude::*;

use crate::goldberg::install;
use crate::goldberg::installed;
use crate::goldberg::Assets;
use crate::goldberg::Goldberg;
use crate::meta::AppId;
use crate::meta::GameMeta;
use crate::plan::writes;
use crate::plan::FileWrite;
use crate::plan::FileWriteView;
use crate::steam_api::find_steam_dlls;
use crate::steam_api::libraries;
use crate::steam_api::libraries_in;
use crate::steam_api::paths;
use crate::steam_api::FilePath;
use crate::steam_api::Library;
use crate::steam_api::Version;
use crate::Error;
use crate::ErrorView;

verus! {

/// The name of the function that a script defines and that is called to
/// patch a title. It takes the game directory and the title's descriptor.
pub const ENTRY: &'static str = "patch";

/// The name under which a script finds [`ScriptRun::find_steam_dlls`].
pub const FIND_STEAM_DLLS: &'static str = "find_steam_dlls";

/// The name under which a script finds [`ScriptRun::install_goldberg`].
pub const INSTALL_GOLDBERG: &'static str = "install_goldberg";

/// The writes that a running script has asked for so far.
#[derive(Debug)]
pub struct ScriptRun {
    plan: Vec<FileWrite>,
}

impl View for ScriptRun {
    type V = Seq<FileWriteView>;

    closed spec fn view(&self) -> Seq<FileWriteView> {
        writes(self.plan@)
    }
}

impl ScriptRun {
    /// The state before the script runs: nothing was asked for.
    pub fn new() -> (run: ScriptRun)
        ensures
            run@ == Seq::<FileWriteView>::empty(),
    {
        let run = ScriptRun { plan: Vec::new() };
        assert(writes(run.plan@) =~= Seq::<FileWriteView>::empty());
        run
    }

    /// What a script gets when it asks for the networking libraries: those
    /// among `files`, the regular files below the game directory, with the
    /// architecture of the title's executable for the Linux library.
    pub fn find_steam_dlls(&self, files: &Vec<FilePath>, meta: &GameMeta) -> (found: Vec<Library>)
        ensures
            libraries(found@) == libraries_in(paths(files@), meta@.exe.arch),
    {
        find_steam_dlls(files, meta.exe.arch)
    }

    /// What happens when a script installs the emulator in `dir`: the writes
    /// of [`install`] are added to those asked for so far.
    pub fn install_goldberg(&mut self, dir: &str, version: Version, app_id: u32, assets: &Assets)
        ensures
            final(self)@ == old(self)@ + installed(
                dir@,
                Goldberg { arch: version.arch, os: version.os },
                AppId(app_id),
                assets@,
            ),
    {
        let goldberg = Goldberg::new(version.arch, version.os);
        let mut added = install(dir, goldberg, AppId(app_id), assets);
        let ghost before = writes(self.plan@);
        let ghost more = writes(added@);
        self.plan.append(&mut added);
        assert(writes(self.plan@) =~= before + more);
    }
}

/// What the run of a script comes to: the writes it asked for, or the
/// script error.
pub open spec fn concluded(asked: Seq<FileWriteView>, outcome: Result<(), Seq<char>>) -> Result<
    Seq<FileWriteView>,
    ErrorView,
> {
    match outcome {
        Ok(_) => Ok(asked),
        Err(message) => Err(ErrorView::Script(message)),
    }
}

/// The value of what the interpreter reported.
pub open spec fn reported(outcome: Result<(), String>) -> Result<(), Seq<char>> {
    match outcome {
        Ok(_) => Ok(()),
        Err(message) => Err(message@),
    }
}

/// The value of what the run of a script came to.
pub open spec fn conclusion(r: Result<Vec<FileWrite>, Error>) -> Result<
    Seq<FileWriteView>,
    ErrorView,
> {
    match r {
        Ok(plan) => Ok(writes(plan@)),
        Err(error) => Err(error@),
    }
}

/// Concludes the run of a script.
///
/// `outcome` is what the interpreter reported: that the script's entry
/// function came to its end, or the message of the error that stopped it,
/// be it that the script did not compile or that it raised an error while it
/// ran. Either is [`Error::Script`] with that message, and then none of the
/// writes that the script asked for is handed out. A script that came to its
/// end gives its writes, in the order in which it asked for them.
pub fn run_patcher(run: ScriptRun, outcome: Result<(), String>) -> (r: Result<
    Vec<FileWrite>,
    Error,
>)
    ensures
        conclusion(r) == concluded(run@, reported(outcome)),
{
    match outcome {
        Ok(_) => Ok(run.plan),
        Err(message) => Err(Error::Script(message)),
    }
}

} // verus!
