//! Resolves which title a game directory belongs to and plans the replacement
//! of its networking library by a LAN-capable emulator.
//!
//! The crate never touches the disk itself. Callers list directories and read
//! files, hand the results over as plain values, and carry out the writes that
//! the strategies return.

use vstd::prelude::*;

use crate::meta::AppId;

pub mod descriptor;
pub mod fingerprint;
pub mod goldberg;
pub mod meta;
pub mod patchers;
pub mod plan;
pub mod registry;
pub mod resolver;
pub mod steam_api;
pub mod text;
pub mod walk;

verus! {

/// Why resolving or patching a title failed.
#[derive(Debug, PartialEq, Eq)]
pub enum Error {
    /// The caller could not read a directory or write a file. The text is
    /// what the operating system said.
    Io(String),
    /// The caller named a title that the registry does not hold.
    UnknownAppId(AppId),
    /// The script of a title did not compile, or it raised an error while it
    /// ran. The text is what the interpreter said.
    Script(String),
}

/// The mathematical value of an [`Error`].
pub enum ErrorView {
    Io(Seq<char>),
    UnknownAppId(AppId),
    Script(Seq<char>),
}

impl View for Error {
    type V = ErrorView;

    open spec fn view(&self) -> ErrorView {
        match *self {
            Error::Io(message) => ErrorView::Io(message@),
            Error::UnknownAppId(app_id) => ErrorView::UnknownAppId(app_id),
            Error::Script(message) => ErrorView::Script(message@),
        }
    }
}

} // verus!
