//! The descriptor of a title: a TOML document that gives its identifier, its
//! executable and the strategy that patches it.
//!
//! ```toml
//! identifier = 480
//! buildRevision = 1234
//!
//! [executable]
//! fileName = "bin/game.exe"
//! architecture = "X64"      # or "X86"
//! platform = "Windows"      # or "Linux"
//!
//! [strategy]
//! type = "builtin-replace"  # with `method`, or "script" with `path`
//! method = "emulator-swap"
//! ```
//!
//! Keys that a descriptor does not use are ignored. The `toml` crate reads
//! the document; which keys a descriptor needs and what they may hold is
//! decided here.

use vstd::prelude::*;

use crate::meta::arch_named;
use crate::meta::os_named;
use crate::meta::AppId;
use crate::meta::Arch;
use crate::meta::ExecutableMeta;
use crate::meta::ExecutableMetaView;
use crate::meta::GameMeta;
use crate::meta::GameMetaView;
use crate::meta::Os;
use crate::meta::Patcher;
use crate::meta::PatcherView;
use crate::meta::SteamMeta;
use crate::patchers::quick::Method;
use crate::text::str_eq;

verus! {

/// The name of the file that holds the descriptor in the directory of a
/// title.
pub const DESCRIPTOR_FILE: &'static str = "meta.toml";

/// `toml::Value`, a value of a TOML document: the document itself, a table,
/// or a single value. Nothing is known of it but what the functions below
/// tell.
#[verifier::external_type_specification]
#[verifier::external_body]
pub struct ExValue(toml::Value);

/// What `toml::from_str` makes of `text`: the document that `text` spells,
/// or, where `text` is not TOML, what the parser says is wrong with it.
pub uninterp spec fn document_of(text: Seq<char>) -> Result<toml::Value, Seq<char>>;

/// What `toml::Value::get` finds in `value` under `key`: what the table
/// `value` holds there, or nothing where `value` is no table or has no such
/// key.
pub uninterp spec fn member_of(value: toml::Value, key: Seq<char>) -> Option<toml::Value>;

/// What `toml::Value::as_integer` gives for `value`: the number that `value`
/// is, or nothing where it is no integer.
pub uninterp spec fn integer_of(value: toml::Value) -> Option<i64>;

/// What `toml::Value::as_str` gives for `value`: the text that `value` is,
/// or nothing where it is no string.
pub uninterp spec fn text_of(value: toml::Value) -> Option<Seq<char>>;

/// Reads a TOML document with `toml::from_str`, and puts a failure into the
/// parser's words.
///
/// The contract gives the result a name and says nothing of what it holds:
/// neither which texts are documents, nor what a document contains, nor how
/// the parser words a failure. That the result depends on the text alone is
/// all that is claimed.
#[verifier::external_body]
fn parse_document(text: &str) -> (r: Result<toml::Value, String>)
    ensures
        match r {
            Ok(value) => document_of(text@) == Ok::<toml::Value, Seq<char>>(value),
            Err(message) => document_of(text@) == Err::<toml::Value, Seq<char>>(message@),
        },
{
    match toml::from_str::<toml::Value>(text) {
        Ok(value) => Ok(value),
        Err(error) => Err(error.to_string()),
    }
}

/// Looks a key up in a table with `toml::Value::get`, which gives nothing for
/// a value that is no table and for a key that the table lacks. The contract
/// gives the result a name and claims no more than that it depends on the
/// value and the key alone.
#[verifier::external_body]
fn get_member<'a>(value: &'a toml::Value, key: &str) -> (r: Option<&'a toml::Value>)
    ensures
        match r {
            Some(found) => member_of(*value, key@) == Some(*found),
            None => member_of(*value, key@) is None,
        },
{
    value.get(key)
}

/// `toml::Value::as_integer` gives the number of an integer value and
/// nothing for any other value. The contract gives the result a name.
pub assume_specification[ toml::Value::as_integer ](value: &toml::Value) -> (r: Option<i64>)
    ensures
        r == integer_of(*value),
;

/// `toml::Value::as_str` gives the text of a string value and nothing for
/// any other value. The contract gives the result a name.
pub assume_specification[ toml::Value::as_str ](value: &toml::Value) -> (r: Option<&str>)
    ensures
        match r {
            Some(text) => text_of(*value) == Some(text@),
            None => text_of(*value) is None,
        },
;

/// A key of a descriptor.
#[derive(Debug, Clone, Copy, PartialEq, Eq, Structural)]
pub enum Field {
    /// `identifier`
    Identifier,
    /// `buildRevision`
    BuildRevision,
    /// `executable.fileName`
    FileName,
    /// `executable.architecture`
    Architecture,
    /// `executable.platform`
    Platform,
    /// `strategy.type`
    Strategy,
    /// `strategy.method`
    Method,
    /// `strategy.path`
    Path,
}

/// Why a text is no descriptor.
#[derive(Debug, PartialEq, Eq)]
pub enum DescriptorError {
    /// The text is not a TOML document. The message is that of the parser.
    Syntax(String),
    /// The key is absent, or its value is of another type than the key asks
    /// for.
    Missing(Field),
    /// The number under the key does not fit in 32 bits without sign.
    OutOfRange(Field),
    /// The text under the key is none of those that the key allows.
    Unknown(Field),
}

/// The mathematical value of a [`DescriptorError`].
pub enum DescriptorErrorView {
    Syntax(Seq<char>),
    Missing(Field),
    OutOfRange(Field),
    Unknown(Field),
}

impl View for DescriptorError {
    type V = DescriptorErrorView;

    open spec fn view(&self) -> DescriptorErrorView {
        match *self {
            DescriptorError::Syntax(message) => DescriptorErrorView::Syntax(message@),
            DescriptorError::Missing(field) => DescriptorErrorView::Missing(field),
            DescriptorError::OutOfRange(field) => DescriptorErrorView::OutOfRange(field),
            DescriptorError::Unknown(field) => DescriptorErrorView::Unknown(field),
        }
    }
}

impl Clone for DescriptorError {
    fn clone(&self) -> (r: Self)
        ensures
            r@ == self@,
    {
        match self {
            DescriptorError::Syntax(message) => DescriptorError::Syntax(message.clone()),
            DescriptorError::Missing(field) => DescriptorError::Missing(*field),
            DescriptorError::OutOfRange(field) => DescriptorError::OutOfRange(*field),
            DescriptorError::Unknown(field) => DescriptorError::Unknown(*field),
        }
    }
}

/// What a document holds under the keys of a descriptor, before any of it is
/// judged. A key that is absent, or whose value is of another type than the
/// key asks for, gives `None`.
#[derive(Debug, PartialEq, Eq)]
pub struct Fields {
    pub identifier: Option<i64>,
    pub build_revision: Option<i64>,
    pub file_name: Option<String>,
    pub architecture: Option<String>,
    pub platform: Option<String>,
    pub strategy: Option<String>,
    pub method: Option<String>,
    pub path: Option<String>,
}

/// The mathematical value of [`Fields`].
pub struct FieldsView {
    pub identifier: Option<i64>,
    pub build_revision: Option<i64>,
    pub file_name: Option<Seq<char>>,
    pub architecture: Option<Seq<char>>,
    pub platform: Option<Seq<char>>,
    pub strategy: Option<Seq<char>>,
    pub method: Option<Seq<char>>,
    pub path: Option<Seq<char>>,
}

/// The value of a text that may be absent.
pub open spec fn text_view(text: Option<String>) -> Option<Seq<char>> {
    match text {
        Some(text) => Some(text@),
        None => None,
    }
}

impl View for Fields {
    type V = FieldsView;

    open spec fn view(&self) -> FieldsView {
        FieldsView {
            identifier: self.identifier,
            build_revision: self.build_revision,
            file_name: text_view(self.file_name),
            architecture: text_view(self.architecture),
            platform: text_view(self.platform),
            strategy: text_view(self.strategy),
            method: text_view(self.method),
            path: text_view(self.path),
        }
    }
}

/// The number under `key` in `table`.
pub open spec fn integer_at(table: Option<toml::Value>, key: Seq<char>) -> Option<i64> {
    match table {
        Some(table) => match member_of(table, key) {
            Some(value) => integer_of(value),
            None => None,
        },
        None => None,
    }
}

/// The text under `key` in `table`.
pub open spec fn text_at(table: Option<toml::Value>, key: Seq<char>) -> Option<Seq<char>> {
    match table {
        Some(table) => match member_of(table, key) {
            Some(value) => text_of(value),
            None => None,
        },
        None => None,
    }
}

/// What `document` holds under the keys of a descriptor.
pub open spec fn fields_of(document: toml::Value) -> FieldsView {
    let executable = member_of(document, "executable"@);
    let strategy = member_of(document, "strategy"@);
    FieldsView {
        identifier: integer_at(Some(document), "identifier"@),
        build_revision: integer_at(Some(document), "buildRevision"@),
        file_name: text_at(executable, "fileName"@),
        architecture: text_at(executable, "architecture"@),
        platform: text_at(executable, "platform"@),
        strategy: text_at(strategy, "type"@),
        method: text_at(strategy, "method"@),
        path: text_at(strategy, "path"@),
    }
}

/// Reads the number under `key` in `table`.
fn read_integer(table: Option<&toml::Value>, key: &str) -> (r: Option<i64>)
    ensures
        r == integer_at(
            match table {
                Some(table) => Some(*table),
                None => None,
            },
            key@,
        ),
{
    match table {
        Some(table) => match get_member(table, key) {
            Some(value) => value.as_integer(),
            None => None,
        },
        None => None,
    }
}

/// Reads the text under `key` in `table`.
fn read_text(table: Option<&toml::Value>, key: &str) -> (r: Option<String>)
    ensures
        text_view(r) == text_at(
            match table {
                Some(table) => Some(*table),
                None => None,
            },
            key@,
        ),
{
    match table {
        Some(table) => match get_member(table, key) {
            Some(value) => match value.as_str() {
                Some(text) => Some(text.to_owned()),
                None => None,
            },
            None => None,
        },
        None => None,
    }
}

/// Reads from a document what it holds under the keys of a descriptor.
pub fn read_fields(document: &toml::Value) -> (fields: Fields)
    ensures
        fields@ == fields_of(*document),
{
    let executable = get_member(document, "executable");
    let strategy = get_member(document, "strategy");
    Fields {
        identifier: read_integer(Some(document), "identifier"),
        build_revision: read_integer(Some(document), "buildRevision"),
        file_name: read_text(executable, "fileName"),
        architecture: read_text(executable, "architecture"),
        platform: read_text(executable, "platform"),
        strategy: read_text(strategy, "type"),
        method: read_text(strategy, "method"),
        path: read_text(strategy, "path"),
    }
}

/// The number of a field: present, and within 32 bits without sign.
pub open spec fn number(value: Option<i64>, field: Field) -> Result<u32, DescriptorErrorView> {
    match value {
        None => Err(DescriptorErrorView::Missing(field)),
        Some(n) => if 0 <= n <= u32::MAX {
            Ok(n as u32)
        } else {
            Err(DescriptorErrorView::OutOfRange(field))
        },
    }
}

/// The architecture that a descriptor names: `X86` or `X64`.
pub open spec fn architecture(text: Option<Seq<char>>) -> Result<Arch, DescriptorErrorView> {
    match text {
        None => Err(DescriptorErrorView::Missing(Field::Architecture)),
        Some(text) => match arch_named(text) {
            Some(arch) => Ok(arch),
            None => Err(DescriptorErrorView::Unknown(Field::Architecture)),
        },
    }
}

/// The operating system that a descriptor names: `Windows` or `Linux`.
pub open spec fn platform(text: Option<Seq<char>>) -> Result<Os, DescriptorErrorView> {
    match text {
        None => Err(DescriptorErrorView::Missing(Field::Platform)),
        Some(text) => match os_named(text) {
            Some(os) => Ok(os),
            None => Err(DescriptorErrorView::Unknown(Field::Platform)),
        },
    }
}

/// The strategy that a descriptor names: `builtin-replace` with the method
/// `emulator-swap`, or `script` with the path of the script.
pub open spec fn strategy(fields: FieldsView) -> Result<PatcherView, DescriptorErrorView> {
    match fields.strategy {
        None => Err(DescriptorErrorView::Missing(Field::Strategy)),
        Some(kind) => if kind == "builtin-replace"@ {
            match fields.method {
                None => Err(DescriptorErrorView::Missing(Field::Method)),
                Some(method) => if method == "emulator-swap"@ {
                    Ok(PatcherView::Quick { method: Method::Goldberg })
                } else {
                    Err(DescriptorErrorView::Unknown(Field::Method))
                },
            }
        } else if kind == "script"@ {
            match fields.path {
                None => Err(DescriptorErrorView::Missing(Field::Path)),
                Some(path) => Ok(PatcherView::Script { path }),
            }
        } else {
            Err(DescriptorErrorView::Unknown(Field::Strategy))
        },
    }
}

/// The descriptor that `fields` make, loaded from the directory `dir`, or
/// the first thing that is wrong with them, in the order identifier, build
/// revision, file name, architecture, platform, strategy.
pub open spec fn decoded(fields: FieldsView, dir: Seq<char>) -> Result<
    GameMetaView,
    DescriptorErrorView,
> {
    match number(fields.identifier, Field::Identifier) {
        Err(error) => Err(error),
        Ok(identifier) => match number(fields.build_revision, Field::BuildRevision) {
            Err(error) => Err(error),
            Ok(build_id) => match fields.file_name {
                None => Err(DescriptorErrorView::Missing(Field::FileName)),
                Some(file) => match architecture(fields.architecture) {
                    Err(error) => Err(error),
                    Ok(arch) => match platform(fields.platform) {
                        Err(error) => Err(error),
                        Ok(os) => match strategy(fields) {
                            Err(error) => Err(error),
                            Ok(patcher) => Ok(
                                GameMetaView {
                                    patcher_dir: dir,
                                    steam: SteamMeta { app_id: AppId(identifier), build_id },
                                    exe: ExecutableMetaView { file, arch, os },
                                    patcher,
                                },
                            ),
                        },
                    },
                },
            },
        },
    }
}

/// The value of what reading a descriptor gave.
pub open spec fn outcome(r: Result<GameMeta, DescriptorError>) -> Result<
    GameMetaView,
    DescriptorErrorView,
> {
    match r {
        Ok(meta) => Ok(meta@),
        Err(error) => Err(error@),
    }
}

fn to_number(value: Option<i64>, field: Field) -> (r: Result<u32, DescriptorError>)
    ensures
        match r {
            Ok(n) => number(value, field) == Ok::<u32, DescriptorErrorView>(n),
            Err(error) => number(value, field) == Err::<u32, DescriptorErrorView>(error@),
        },
{
    match value {
        None => Err(DescriptorError::Missing(field)),
        Some(n) => {
            if 0 <= n && n <= 0xffff_ffff {
                Ok(n as u32)
            } else {
                Err(DescriptorError::OutOfRange(field))
            }
        },
    }
}

fn to_architecture(text: &Option<String>) -> (r: Result<Arch, DescriptorError>)
    ensures
        match r {
            Ok(arch) => architecture(text_view(*text)) == Ok::<Arch, DescriptorErrorView>(arch),
            Err(error) => architecture(text_view(*text)) == Err::<Arch, DescriptorErrorView>(
                error@,
            ),
        },
{
    match text {
        None => Err(DescriptorError::Missing(Field::Architecture)),
        Some(text) => match Arch::from_name(text.as_str()) {
            Some(arch) => Ok(arch),
            None => Err(DescriptorError::Unknown(Field::Architecture)),
        },
    }
}

fn to_platform(text: &Option<String>) -> (r: Result<Os, DescriptorError>)
    ensures
        match r {
            Ok(os) => platform(text_view(*text)) == Ok::<Os, DescriptorErrorView>(os),
            Err(error) => platform(text_view(*text)) == Err::<Os, DescriptorErrorView>(error@),
        },
{
    match text {
        None => Err(DescriptorError::Missing(Field::Platform)),
        Some(text) => match Os::from_name(text.as_str()) {
            Some(os) => Ok(os),
            None => Err(DescriptorError::Unknown(Field::Platform)),
        },
    }
}

fn to_strategy(fields: &Fields) -> (r: Result<Patcher, DescriptorError>)
    ensures
        match r {
            Ok(patcher) => strategy(fields@) == Ok::<PatcherView, DescriptorErrorView>(patcher@),
            Err(error) => strategy(fields@) == Err::<PatcherView, DescriptorErrorView>(error@),
        },
{
    match &fields.strategy {
        None => Err(DescriptorError::Missing(Field::Strategy)),
        Some(kind) => {
            if str_eq(kind.as_str(), "builtin-replace") {
                match &fields.method {
                    None => Err(DescriptorError::Missing(Field::Method)),
                    Some(method) => {
                        if str_eq(method.as_str(), "emulator-swap") {
                            Ok(Patcher::Quick { method: Method::Goldberg })
                        } else {
                            Err(DescriptorError::Unknown(Field::Method))
                        }
                    },
                }
            } else if str_eq(kind.as_str(), "script") {
                match &fields.path {
                    None => Err(DescriptorError::Missing(Field::Path)),
                    Some(path) => Ok(Patcher::Script { path: path.clone() }),
                }
            } else {
                Err(DescriptorError::Unknown(Field::Strategy))
            }
        },
    }
}

/// Judges what a document holds under the keys of a descriptor.
///
/// Gives the descriptor, with `dir` as the directory it was loaded from, where
/// every key is present and holds what it may hold; else the first thing
/// that is wrong.
pub fn decode(fields: &Fields, dir: &str) -> (r: Result<GameMeta, DescriptorError>)
    ensures
        outcome(r) == decoded(fields@, dir@),
{
    let identifier = match to_number(fields.identifier, Field::Identifier) {
        Ok(n) => n,
        Err(error) => {
            return Err(error);
        },
    };
    let build_id = match to_number(fields.build_revision, Field::BuildRevision) {
        Ok(n) => n,
        Err(error) => {
            return Err(error);
        },
    };
    let file = match &fields.file_name {
        Some(file) => file.clone(),
        None => {
            return Err(DescriptorError::Missing(Field::FileName));
        },
    };
    let arch = match to_architecture(&fields.architecture) {
        Ok(arch) => arch,
        Err(error) => {
            return Err(error);
        },
    };
    let os = match to_platform(&fields.platform) {
        Ok(os) => os,
        Err(error) => {
            return Err(error);
        },
    };
    let patcher = match to_strategy(fields) {
        Ok(patcher) => patcher,
        Err(error) => {
            return Err(error);
        },
    };
    Ok(
        GameMeta {
            patcher_dir: dir.to_owned(),
            steam: SteamMeta { app_id: AppId(identifier), build_id },
            exe: ExecutableMeta { file, arch, os },
            patcher,
        },
    )
}

/// The descriptor that `text` spells, loaded from the directory `dir`, or
/// why it spells none.
pub open spec fn described(text: Seq<char>, dir: Seq<char>) -> Result<
    GameMetaView,
    DescriptorErrorView,
> {
    match document_of(text) {
        Err(message) => Err(DescriptorErrorView::Syntax(message)),
        Ok(document) => decoded(fields_of(document), dir),
    }
}

/// Reads the descriptor that `text` spells, loaded from the directory `dir`.
///
/// A text that is not TOML gives [`DescriptorError::Syntax`]; of a text that
/// is, the keys of a descriptor are read and judged as [`decode`] says.
pub fn parse_descriptor(text: &str, dir: &str) -> (r: Result<GameMeta, DescriptorError>)
    ensures
        outcome(r) == described(text@, dir@),
{
    match parse_document(text) {
        Err(message) => Err(DescriptorError::Syntax(message)),
        Ok(document) => {
            let fields = read_fields(&document);
            decode(&fields, dir)
        },
    }
}

} // verus!
