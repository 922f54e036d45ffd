//! The registry: the descriptors that were loaded, one for each identifier.
//!
//! Descriptors are loaded from one directory after the other. Where two of
//! them carry the same identifier, the one loaded later takes the place of
//! the earlier one, and the caller is told so.

use vstd::prelude::*;

use crate::descriptor::described;
use crate::descriptor::parse_descriptor;
use crate::descriptor::DescriptorError;
use crate::descriptor::DescriptorErrorView;
use crate::meta::AppId;
use crate::meta::GameMeta;
use crate::meta::GameMetaView;

verus! {

/// Whether `entries` holds a descriptor of the title `app_id`.
pub open spec fn holds(entries: Seq<GameMetaView>, app_id: AppId) -> bool {
    exists|i: int|
        #![trigger entries[i]]
        0 <= i < entries.len() && entries[i].steam.app_id == app_id
}

/// A place in `entries` of a descriptor of the title `app_id`.
pub open spec fn position(entries: Seq<GameMetaView>, app_id: AppId) -> int {
    choose|i: int|
        #![trigger entries[i]]
        0 <= i < entries.len() && entries[i].steam.app_id == app_id
}

/// The descriptor of the title `app_id` in `entries`.
pub open spec fn lookup(entries: Seq<GameMetaView>, app_id: AppId) -> Option<GameMetaView> {
    if holds(entries, app_id) {
        Some(entries[position(entries, app_id)])
    } else {
        None
    }
}

/// Whether no two of `entries` are of the same title.
pub open spec fn distinct(entries: Seq<GameMetaView>) -> bool {
    forall|i: int, j: int|
        #![trigger entries[i], entries[j]]
        0 <= i < j < entries.len() ==> entries[i].steam.app_id != entries[j].steam.app_id
}

/// `entries` after `meta` was put in: in the place of the descriptor of the
/// same title, where there is one, and at the end else.
pub open spec fn inserted(entries: Seq<GameMetaView>, meta: GameMetaView) -> Seq<GameMetaView> {
    if holds(entries, meta.steam.app_id) {
        entries.update(position(entries, meta.steam.app_id), meta)
    } else {
        entries.push(meta)
    }
}

/// Putting a descriptor in keeps one descriptor for each title.
pub proof fn lemma_inserted_distinct(entries: Seq<GameMetaView>, meta: GameMetaView)
    requires
        distinct(entries),
    ensures
        distinct(inserted(entries, meta)),
{
    let after = inserted(entries, meta);
    if holds(entries, meta.steam.app_id) {
        let at = position(entries, meta.steam.app_id);
        assert forall|i: int, j: int| 0 <= i < j < after.len() implies after[i].steam.app_id
            != after[j].steam.app_id by {
            assert(after[i].steam.app_id == entries[i].steam.app_id);
            assert(after[j].steam.app_id == entries[j].steam.app_id);
        }
    } else {
        assert forall|i: int, j: int| 0 <= i < j < after.len() implies after[i].steam.app_id
            != after[j].steam.app_id by {
            if j < entries.len() {
                assert(after[i] == entries[i] && after[j] == entries[j]);
            } else {
                assert(after[i] == entries[i]);
            }
        }
    }
}

/// After a descriptor was put in, the registry gives it for its title, and
/// for every other title what it gave before.
pub proof fn lemma_inserted_lookup(entries: Seq<GameMetaView>, meta: GameMetaView, app_id: AppId)
    requires
        distinct(entries),
    ensures
        lookup(inserted(entries, meta), app_id) == if app_id == meta.steam.app_id {
            Some(meta)
        } else {
            lookup(entries, app_id)
        },
{
    let after = inserted(entries, meta);
    lemma_inserted_distinct(entries, meta);
    let at = if holds(entries, meta.steam.app_id) {
        position(entries, meta.steam.app_id)
    } else {
        entries.len() as int
    };
    assert(after[at] == meta);
    if app_id == meta.steam.app_id {
        assert(holds(after, app_id));
        let found = position(after, app_id);
        if found != at {
            if found < at {
                assert(after[found].steam.app_id != after[at].steam.app_id);
            } else {
                assert(after[at].steam.app_id != after[found].steam.app_id);
            }
        }
    } else {
        if holds(entries, app_id) {
            let was = position(entries, app_id);
            assert(after[was] == entries[was]);
            assert(holds(after, app_id));
            let found = position(after, app_id);
            assert(after[found] == entries[found]);
            if found != was {
                if found < was {
                    assert(entries[found].steam.app_id != entries[was].steam.app_id);
                } else {
                    assert(entries[was].steam.app_id != entries[found].steam.app_id);
                }
            }
        }
        if holds(after, app_id) {
            let found = position(after, app_id);
            assert(after[found] == entries[found]);
            assert(holds(entries, app_id));
        }
    }
}

/// The descriptors that were loaded, one for each identifier, in the order in
/// which their identifiers first came.
#[derive(Debug)]
pub struct Registry {
    entries: Vec<GameMeta>,
}

/// The values of a sequence of descriptors, in the same order.
pub open spec fn descriptors(entries: Seq<GameMeta>) -> Seq<GameMetaView> {
    entries.map_values(|meta: GameMeta| meta@)
}

impl View for Registry {
    type V = Seq<GameMetaView>;

    closed spec fn view(&self) -> Seq<GameMetaView> {
        descriptors(self.entries@)
    }
}

impl Registry {
    #[verifier::type_invariant]
    spec fn well_formed(&self) -> bool {
        distinct(descriptors(self.entries@))
    }

    /// A registry without descriptors.
    pub fn new() -> (registry: Registry)
        ensures
            registry@ == Seq::<GameMetaView>::empty(),
    {
        let registry = Registry { entries: Vec::new() };
        assert(descriptors(registry.entries@) =~= Seq::<GameMetaView>::empty());
        registry
    }

    /// The descriptors, in the order in which their identifiers first came.
    /// No two of them are of the same title.
    pub fn entries(&self) -> (entries: &Vec<GameMeta>)
        ensures
            descriptors(entries@) == self@,
            distinct(self@),
    {
        proof {
            use_type_invariant(self);
        }
        &self.entries
    }

    /// The place of the descriptor of the title `app_id`.
    fn find(&self, app_id: AppId) -> (at: Option<usize>)
        ensures
            distinct(self@),
            match at {
                Some(at) => holds(self@, app_id) && at == position(self@, app_id),
                None => !holds(self@, app_id),
            },
    {
        proof {
            use_type_invariant(self);
        }
        let ghost entries = self@;
        let mut i: usize = 0;
        while i < self.entries.len()
            invariant
                i <= self.entries@.len(),
                entries == descriptors(self.entries@),
                entries == self@,
                distinct(entries),
                forall|j: int| 0 <= j < i ==> (#[trigger] entries[j]).steam.app_id != app_id,
            decreases self.entries@.len() - i,
        {
            if self.entries[i].steam.app_id.0 == app_id.0 {
                proof {
                    assert(entries[i as int].steam.app_id == app_id);
                    let found = position(entries, app_id);
                    if found != i {
                        if found < i {
                            assert(entries[found].steam.app_id != entries[i as int].steam.app_id);
                        } else {
                            assert(entries[i as int].steam.app_id != entries[found].steam.app_id);
                        }
                    }
                }
                return Some(i);
            }
            i += 1;
        }
        None
    }

    /// The descriptor of the title `app_id`, if the registry holds one.
    pub fn get(&self, app_id: AppId) -> (found: Option<&GameMeta>)
        ensures
            match found {
                Some(meta) => lookup(self@, app_id) == Some(meta@),
                None => lookup(self@, app_id) is None,
            },
    {
        match self.find(app_id) {
            Some(at) => Some(&self.entries[at]),
            None => None,
        }
    }

    /// Puts a descriptor in. Where the registry holds a descriptor of the same
    /// title, the new one takes its place and the old one is returned.
    pub fn insert(&mut self, meta: GameMeta) -> (old_meta: Option<GameMeta>)
        ensures
            final(self)@ == inserted(old(self)@, meta@),
            distinct(old(self)@),
            distinct(final(self)@),
            match old_meta {
                Some(replaced) => lookup(old(self)@, meta@.steam.app_id) == Some(replaced@),
                None => lookup(old(self)@, meta@.steam.app_id) is None,
            },
    {
        let ghost before = self@;
        let at = self.find(meta.steam.app_id);
        proof {
            lemma_inserted_distinct(before, meta@);
        }
        let mut entries: Vec<GameMeta> = Vec::new();
        core::mem::swap(&mut entries, &mut self.entries);
        match at {
            Some(at) => {
                let ghost new_meta = meta@;
                let mut meta = meta;
                core::mem::swap(&mut meta, &mut entries[at]);
                assert(descriptors(entries@) =~= inserted(before, new_meta));
                self.entries = entries;
                Some(meta)
            },
            None => {
                let ghost new_meta = meta@;
                entries.push(meta);
                assert(descriptors(entries@) =~= inserted(before, new_meta));
                self.entries = entries;
                None
            },
        }
    }
}

/// What the caller found at one entry of a directory of descriptors.
#[derive(Debug, PartialEq, Eq)]
pub enum Content {
    /// The entry is no directory, so it holds no descriptor.
    NotDirectory,
    /// The entry is a directory, but its descriptor could not be read. The
    /// text is what the operating system said.
    Unreadable(String),
    /// The text of the descriptor in the directory.
    Text(String),
}

/// The mathematical value of a [`Content`].
pub enum ContentView {
    NotDirectory,
    Unreadable(Seq<char>),
    Text(Seq<char>),
}

impl View for Content {
    type V = ContentView;

    open spec fn view(&self) -> ContentView {
        match *self {
            Content::NotDirectory => ContentView::NotDirectory,
            Content::Unreadable(message) => ContentView::Unreadable(message@),
            Content::Text(text) => ContentView::Text(text@),
        }
    }
}

/// One entry of a directory of descriptors, as the caller found it.
#[derive(Debug, PartialEq, Eq)]
pub struct Scanned {
    /// The path of the entry.
    pub path: String,
    pub content: Content,
}

/// The mathematical value of a [`Scanned`].
pub struct ScannedView {
    pub path: Seq<char>,
    pub content: ContentView,
}

impl View for Scanned {
    type V = ScannedView;

    open spec fn view(&self) -> ScannedView {
        ScannedView { path: self.path@, content: self.content@ }
    }
}

/// The values of the entries of a directory, in the same order.
pub open spec fn scans(items: Seq<Scanned>) -> Seq<ScannedView> {
    items.map_values(|item: Scanned| item@)
}

/// Something that went wrong while descriptors were loaded, and did not stop
/// the loading.
#[derive(Debug, PartialEq, Eq)]
pub enum Warning {
    /// The entry at `path` is no directory and was passed over.
    Skipped { path: String },
    /// The directory of descriptors at `path`, or the descriptor in the
    /// directory at `path`, could not be read.
    Unreadable { path: String, message: String },
    /// The text in the directory at `path` is no descriptor.
    Malformed { path: String, error: DescriptorError },
    /// A descriptor took the place of `old`, which has the same identifier.
    Duplicate { old: GameMeta },
}

/// The mathematical value of a [`Warning`].
pub enum WarningView {
    Skipped { path: Seq<char> },
    Unreadable { path: Seq<char>, message: Seq<char> },
    Malformed { path: Seq<char>, error: DescriptorErrorView },
    Duplicate { old: GameMetaView },
}

impl View for Warning {
    type V = WarningView;

    open spec fn view(&self) -> WarningView {
        match *self {
            Warning::Skipped { path } => WarningView::Skipped { path: path@ },
            Warning::Unreadable { path, message } => WarningView::Unreadable {
                path: path@,
                message: message@,
            },
            Warning::Malformed { path, error } => WarningView::Malformed {
                path: path@,
                error: error@,
            },
            Warning::Duplicate { old } => WarningView::Duplicate { old: old@ },
        }
    }
}

/// The values of a sequence of warnings, in the same order.
pub open spec fn warnings(list: Seq<Warning>) -> Seq<WarningView> {
    list.map_values(|warning: Warning| warning@)
}

/// What an entry gives: its descriptor, with the entry's path as the
/// directory it was loaded from, or the reason why it gives none.
pub open spec fn loaded(item: ScannedView) -> Result<GameMetaView, WarningView> {
    match item.content {
        ContentView::NotDirectory => Err(WarningView::Skipped { path: item.path }),
        ContentView::Unreadable(message) => Err(
            WarningView::Unreadable { path: item.path, message },
        ),
        ContentView::Text(text) => match described(text, item.path) {
            Ok(meta) => Ok(meta),
            Err(error) => Err(WarningView::Malformed { path: item.path, error }),
        },
    }
}

/// The registry after an entry was taken in, and the warning that this gave.
/// A descriptor is put in, with a warning where it replaces another; an
/// entry without a descriptor leaves the registry as it is.
pub open spec fn taken_in(entries: Seq<GameMetaView>, entry: Result<GameMetaView, WarningView>) -> (
    Seq<GameMetaView>,
    Option<WarningView>,
) {
    match entry {
        Err(warning) => (entries, Some(warning)),
        Ok(meta) => (
            inserted(entries, meta),
            match lookup(entries, meta.steam.app_id) {
                Some(old) => Some(WarningView::Duplicate { old }),
                None => None,
            },
        ),
    }
}

/// Where two descriptors of one title are loaded one after the other, the
/// registry gives the second for that title and not the first, it holds as
/// many descriptors as before the second came, and taking the second in
/// gives exactly one warning, which names the first as the one that had to go.
pub proof fn lemma_last_write_wins(
    entries: Seq<GameMetaView>,
    first: GameMetaView,
    second: GameMetaView,
)
    requires
        distinct(entries),
        first.steam.app_id == second.steam.app_id,
    ensures
        ({
            let loaded_first = taken_in(entries, Ok(first)).0;
            let (loaded_both, warning) = taken_in(loaded_first, Ok(second));
            &&& lookup(loaded_first, first.steam.app_id) == Some(first)
            &&& lookup(loaded_both, first.steam.app_id) == Some(second)
            &&& loaded_both.len() == loaded_first.len()
            &&& warning == Some(WarningView::Duplicate { old: first })
        }),
{
    lemma_inserted_lookup(entries, first, first.steam.app_id);
    lemma_inserted_distinct(entries, first);
    lemma_inserted_lookup(inserted(entries, first), second, first.steam.app_id);
}

/// The registry after the entries `items` were taken in one after the
/// other, and the warnings that this gave, in order.
pub open spec fn indexed(entries: Seq<GameMetaView>, items: Seq<ScannedView>) -> (
    Seq<GameMetaView>,
    Seq<WarningView>,
)
    decreases items.len(),
{
    if items.len() == 0 {
        (entries, Seq::empty())
    } else {
        let (before, warned) = indexed(entries, items.drop_last());
        let (after, warning) = taken_in(before, loaded(items.last()));
        (
            after,
            match warning {
                Some(warning) => warned.push(warning),
                None => warned,
            },
        )
    }
}

/// The registry after a directory of descriptors was loaded, and the
/// warnings that this gave. A directory that could not be listed leaves the
/// registry as it is and gives one warning.
pub open spec fn loaded_root(
    entries: Seq<GameMetaView>,
    root: Seq<char>,
    listing: Result<Seq<ScannedView>, Seq<char>>,
) -> (Seq<GameMetaView>, Seq<WarningView>) {
    match listing {
        Err(message) => (entries, seq![WarningView::Unreadable { path: root, message }]),
        Ok(items) => indexed(entries, items),
    }
}

/// The value of what loading an entry gave.
pub open spec fn entry_view(entry: Result<GameMeta, Warning>) -> Result<GameMetaView, WarningView> {
    match entry {
        Ok(meta) => Ok(meta@),
        Err(warning) => Err(warning@),
    }
}

/// The value of a warning that may be absent.
pub open spec fn warning_view(warning: Option<Warning>) -> Option<WarningView> {
    match warning {
        Some(warning) => Some(warning@),
        None => None,
    }
}

/// The value of the listing of a directory of descriptors.
pub open spec fn listing_view(listing: Result<Vec<Scanned>, String>) -> Result<
    Seq<ScannedView>,
    Seq<char>,
> {
    match listing {
        Ok(items) => Ok(scans(items@)),
        Err(message) => Err(message@),
    }
}

/// Loads the descriptor of one entry of a directory of descriptors.
///
/// An entry that is no directory gives [`Warning::Skipped`], one whose
/// descriptor could not be read [`Warning::Unreadable`], one whose text is no
/// descriptor [`Warning::Malformed`]. A descriptor gets the entry's path as
/// the directory it was loaded from.
pub fn load_entry(item: &Scanned) -> (entry: Result<GameMeta, Warning>)
    ensures
        entry_view(entry) == loaded(item@),
{
    match &item.content {
        Content::NotDirectory => Err(Warning::Skipped { path: item.path.clone() }),
        Content::Unreadable(message) => Err(
            Warning::Unreadable { path: item.path.clone(), message: message.clone() },
        ),
        Content::Text(text) => match parse_descriptor(text.as_str(), item.path.as_str()) {
            Ok(meta) => Ok(meta),
            Err(error) => Err(Warning::Malformed { path: item.path.clone(), error }),
        },
    }
}

/// Takes what an entry gave into the registry.
///
/// A descriptor is put in; where it replaces one of the same title, the
/// result is [`Warning::Duplicate`] with the descriptor that had to go. An
/// entry that gave no descriptor leaves the registry as it is, and its
/// warning is handed on.
pub fn take_in(patchers: &mut Registry, entry: Result<GameMeta, Warning>) -> (warning: Option<
    Warning,
>)
    ensures
        (final(patchers)@, warning_view(warning)) == taken_in(old(patchers)@, entry_view(entry)),
{
    match entry {
        Err(warning) => Some(warning),
        Ok(meta) => match patchers.insert(meta) {
            Some(old) => Some(Warning::Duplicate { old }),
            None => None,
        },
    }
}

/// Loads a directory of descriptors into the registry.
///
/// `listing` is what the caller found in the directory `root`, entry by
/// entry, or why it could not list the directory. Each entry is loaded and
/// taken in, in order; what goes wrong with one entry gives a warning and does
/// not stop the others. A directory that could not be listed gives one
/// warning and changes nothing, so that what other directories gave stays.
pub fn index_patchers(
    patchers: &mut Registry,
    root: &str,
    listing: &Result<Vec<Scanned>, String>,
) -> (found: Vec<Warning>)
    ensures
        (final(patchers)@, warnings(found@)) == loaded_root(
            old(patchers)@,
            root@,
            listing_view(*listing),
        ),
{
    let mut found: Vec<Warning> = Vec::new();
    let items = match listing {
        Err(message) => {
            found.push(Warning::Unreadable { path: root.to_owned(), message: message.clone() });
            assert(warnings(found@) =~= seq![
                WarningView::Unreadable { path: root@, message: message@ },
            ]);
            return found;
        },
        Ok(items) => items,
    };
    let ghost start = patchers@;
    let ghost shown = scans(items@);
    let mut i: usize = 0;
    assert(warnings(found@) =~= Seq::<WarningView>::empty());
    while i < items.len()
        invariant
            i <= items@.len(),
            shown == scans(items@),
            (patchers@, warnings(found@)) == indexed(start, shown.take(i as int)),
        decreases items@.len() - i,
    {
        proof {
            let upto = shown.take(i + 1);
            assert(upto.drop_last() =~= shown.take(i as int));
            assert(upto.last() == items@[i as int]@);
        }
        let ghost warned = warnings(found@);
        let entry = load_entry(&items[i]);
        match take_in(patchers, entry) {
            Some(warning) => {
                found.push(warning);
                assert(warnings(found@) =~= warned.push(warning@));
            },
            None => {},
        }
        i += 1;
    }
    assert(shown.take(items@.len() as int) =~= shown);
    found
}

} // verus!
