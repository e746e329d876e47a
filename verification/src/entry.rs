//! One installed program, in the shared schema every collector emits, and what
//! can be done with one.
//!
//! The fields are data, not prose: a source is called `dpkg` and a scope
//! `system` in every language, so nothing here is translated.

use vstd::prelude::*;

use crate::text::{copy_string, eq_str, owned, string_views};

verus! {

/// One installed-program record: where it is registered (`source`), what it
/// is called, its version and publisher when known, where it lives on disk
/// (`location`, possibly empty) and whether it is installed for the whole
/// machine (`system`) or one user (`user`).
#[derive(Clone, Debug, PartialEq, Eq)]
pub struct Entry {
    pub source: String,
    pub name: String,
    pub version: String,
    pub publisher: String,
    pub location: String,
    pub scope: String,
}

/// The characters of each field of an [`Entry`].
pub struct EntryView {
    pub source: Seq<char>,
    pub name: Seq<char>,
    pub version: Seq<char>,
    pub publisher: Seq<char>,
    pub location: Seq<char>,
    pub scope: Seq<char>,
}

impl View for Entry {
    type V = EntryView;

    open spec fn view(&self) -> EntryView {
        EntryView {
            source: self.source@,
            name: self.name@,
            version: self.version@,
            publisher: self.publisher@,
            location: self.location@,
            scope: self.scope@,
        }
    }
}

/// The views of a sequence of entries.
pub open spec fn entry_views(s: Seq<Entry>) -> Seq<EntryView> {
    s.map_values(|e: Entry| e@)
}

pub proof fn lemma_entry_views_push(s: Seq<Entry>, e: Entry)
    ensures
        entry_views(s.push(e)) == entry_views(s).push(e@),
{
    assert(entry_views(s.push(e)) =~= entry_views(s).push(e@));
}

pub proof fn lemma_entry_views_take(s: Seq<Entry>, i: int)
    requires
        0 <= i < s.len(),
    ensures
        entry_views(s.take(i + 1)) == entry_views(s.take(i)).push(s[i]@),
{
    assert(s.take(i + 1) =~= s.take(i).push(s[i]));
    lemma_entry_views_push(s.take(i), s[i]);
}

/// The record with these fields.
pub open spec fn entry_of(
    source: Seq<char>,
    name: Seq<char>,
    version: Seq<char>,
    publisher: Seq<char>,
    location: Seq<char>,
    scope: Seq<char>,
) -> EntryView {
    EntryView { source, name, version, publisher, location, scope }
}

/// Whether an entry's scope is one of the two the schema has: `system` or
/// `user`.
pub open spec fn in_schema_scope(e: EntryView) -> bool {
    e.scope == "system"@ || e.scope == "user"@
}

/// What every record a partial map yields has, every record of the mapped
/// sequence has.
pub(crate) proof fn lemma_filter_map_all<A, B>(s: Seq<A>, f: spec_fn(A) -> Option<B>, p: spec_fn(B) -> bool)
    requires
        forall|a: A| (#[trigger] f(a)) is Some ==> p(f(a)->0),
    ensures
        forall|i: int| 0 <= i < s.filter_map(f).len() ==> p(#[trigger] s.filter_map(f)[i]),
    decreases s.len(),
{
    if s.len() > 0 {
        let rest = s.drop_last();
        lemma_filter_map_all(rest, f, p);
        let m = s.filter_map(f);
        assert forall|i: int| 0 <= i < m.len() implies p(#[trigger] m[i]) by {
            if i < rest.filter_map(f).len() {
                assert(m[i] == rest.filter_map(f)[i]);
            } else {
                assert(f(s.last()) is Some);
            }
        }
    }
}

/// Builds one installed-program record in the shared schema. Used by every
/// platform collector.
pub fn entry(
    source: &str,
    name: String,
    version: String,
    publisher: String,
    location: String,
    scope: &str,
) -> (r: Entry)
    ensures
        r@ == entry_of(source@, name@, version@, publisher@, location@, scope@),
{
    Entry { source: owned(source), name, version, publisher, location, scope: owned(scope) }
}

impl Entry {
    /// A field-for-field copy.
    pub fn duplicate(&self) -> (r: Entry)
        ensures
            r@ == self@,
    {
        Entry {
            source: copy_string(&self.source),
            name: copy_string(&self.name),
            version: copy_string(&self.version),
            publisher: copy_string(&self.publisher),
            location: copy_string(&self.location),
            scope: copy_string(&self.scope),
        }
    }
}

/// A field-for-field copy of every entry.
pub fn copy_entries(s: &[Entry]) -> (r: Vec<Entry>)
    ensures
        entry_views(r@) == entry_views(s@),
        r.len() == s.len(),
{
    let mut r: Vec<Entry> = Vec::new();
    let mut i: usize = 0;
    while i < s.len()
        invariant
            i <= s.len(),
            entry_views(r@) == entry_views(s@.take(i as int)),
        decreases s.len() - i,
    {
        let e = s[i].duplicate();
        proof {
            lemma_entry_views_push(r@, e);
            lemma_entry_views_take(s@, i as int);
        }
        r.push(e);
        i += 1;
    }
    assert(s@.take(s.len() as int) =~= s@);
    r
}

/// The six visible columns of an entry, in the order the table shows them.
#[derive(Clone, Copy, Debug, PartialEq, Eq)]
pub enum Column {
    Name,
    Version,
    Publisher,
    Source,
    Scope,
    Location,
}

/// The value an entry holds for a column.
pub open spec fn field(d: EntryView, c: Column) -> Seq<char> {
    match c {
        Column::Name => d.name,
        Column::Version => d.version,
        Column::Publisher => d.publisher,
        Column::Source => d.source,
        Column::Scope => d.scope,
        Column::Location => d.location,
    }
}

/// A cell value: the entry's field for that column.
pub fn cell(d: &Entry, c: Column) -> (r: String)
    ensures
        r@ == field(d@, c),
{
    match c {
        Column::Name => copy_string(&d.name),
        Column::Version => copy_string(&d.version),
        Column::Publisher => copy_string(&d.publisher),
        Column::Source => copy_string(&d.source),
        Column::Scope => copy_string(&d.scope),
        Column::Location => copy_string(&d.location),
    }
}

/// The six visible columns for an entry row.
pub open spec fn row_of(d: EntryView) -> Seq<Seq<char>> {
    seq![d.name, d.version, d.publisher, d.source, d.scope, d.location]
}

/// The six visible columns for an entry row.
pub fn row_cells(d: &Entry) -> (r: Vec<String>)
    ensures
        string_views(r@) == row_of(d@),
{
    let mut r: Vec<String> = Vec::new();
    r.push(cell(d, Column::Name));
    r.push(cell(d, Column::Version));
    r.push(cell(d, Column::Publisher));
    r.push(cell(d, Column::Source));
    r.push(cell(d, Column::Scope));
    r.push(cell(d, Column::Location));
    assert(string_views(r@) =~= row_of(d@));
    r
}

/// Whether the entry is a system package (`dpkg`/`rpm`): these record no
/// install directory, but a representative path can be resolved on demand
/// from the package's file list.
pub open spec fn is_package_spec(d: EntryView) -> bool {
    d.source == "rpm"@ || d.source == "dpkg"@
}

/// Whether the entry is a system package (`dpkg`/`rpm`).
pub fn is_package(d: &Entry) -> (r: bool)
    ensures
        r == is_package_spec(d@),
{
    eq_str(d.source.as_str(), "rpm") || eq_str(d.source.as_str(), "dpkg")
}

/// Whether the entry has a path that can be revealed or copied: a recorded
/// location, or a package whose files can be queried.
pub open spec fn has_path_spec(d: EntryView) -> bool {
    d.location.len() > 0 || is_package_spec(d)
}

/// Whether the entry has a path that can be revealed or copied.
pub fn has_path(d: &Entry) -> (r: bool)
    ensures
        r == has_path_spec(d@),
{
    d.location.as_str().unicode_len() > 0 || is_package(d)
}

/// How a location is opened: an install folder, or a file.
#[derive(Clone, Copy, Debug, PartialEq, Eq)]
pub enum OpenLabel {
    /// The location is a directory: open it in the file manager.
    Location,
    /// The location is a file (an executable, a `.desktop` entry).
    File,
}

/// How to open an entry: the menu label it gets, the kind of target handed to
/// the host (always `path`) and the path itself.
#[derive(Clone, Debug, PartialEq, Eq)]
pub struct OpenAction {
    pub label: OpenLabel,
    pub target: String,
    pub value: String,
}

/// What `open_kind` decides for a location once the disk has said whether it
/// is a directory and whether it is a file.
pub open spec fn open_decision(location: Seq<char>, is_dir: bool, is_file: bool) -> Option<
    OpenLabel,
> {
    if location.len() == 0 {
        None
    } else if is_dir {
        Some(OpenLabel::Location)
    } else if is_file {
        Some(OpenLabel::File)
    } else {
        None
    }
}

/// The action for `location`, given what the disk said about it: nothing for an
/// empty location or one that is neither a directory nor a file (a bare package
/// name, a path that is gone); otherwise open it as a folder or as a file.
pub fn decide_open(location: &String, is_dir: bool, is_file: bool) -> (r: Option<OpenAction>)
    ensures
        match open_decision(location@, is_dir, is_file) {
            None => r is None,
            Some(label) => r matches Some(a) && a.label == label && a.target@ == "path"@
                && a.value@ == location@,
        },
{
    if location.as_str().unicode_len() == 0 {
        None
    } else if is_dir {
        Some(OpenAction { label: OpenLabel::Location, target: owned("path"), value: copy_string(location) })
    } else if is_file {
        Some(OpenAction { label: OpenLabel::File, target: owned("path"), value: copy_string(location) })
    } else {
        None
    }
}

/// What the disk said of a path: whether a directory is there, and whether a
/// regular file is (links followed). The host asks the disk; the library
/// decides from the answer.
#[derive(Clone, Copy, Debug, PartialEq, Eq)]
pub struct OnDisk {
    pub is_dir: bool,
    pub is_file: bool,
}

/// How an entry opens, given what the disk said of its location.
pub open spec fn open_label_of(d: EntryView, disk: OnDisk) -> Option<OpenLabel> {
    open_decision(d.location, disk.is_dir, disk.is_file)
}

/// What `open_kind` answers for an entry, given what the disk said of its
/// location: nothing, or the entry's location opened as its label says.
pub open spec fn is_open_of(d: EntryView, disk: OnDisk, o: Option<OpenAction>) -> bool {
    match open_label_of(d, disk) {
        None => o is None,
        Some(label) => o matches Some(a) && a.label == label && a.target@ == "path"@ && a.value@
            == d.location,
    }
}

/// How to open an entry, given what the disk said of its location.
pub fn open_kind(d: &Entry, disk: OnDisk) -> (r: Option<OpenAction>)
    ensures
        is_open_of(d@, disk, r),
{
    decide_open(&d.location, disk.is_dir, disk.is_file)
}

/// Where the path to act on comes from.
#[derive(Clone, Debug, PartialEq, Eq)]
pub enum Resolution {
    /// The recorded location.
    Recorded(String),
    /// Nothing is recorded: ask the package manager for a representative file
    /// of this package (`source`, `name`); a source that is not a package
    /// manager answers nothing.
    FromPackage { source: String, name: String },
}

/// The path to act on: the recorded `location`, or, when none is recorded, a
/// file of the package, resolved only when the user acts on the entry.
pub fn resolved_path(d: &Entry) -> (r: Resolution)
    ensures
        d@.location.len() > 0 ==> (r matches Resolution::Recorded(p) && p@ == d@.location),
        d@.location.len() == 0 ==> (r matches Resolution::FromPackage { source, name }
            && source@ == d@.source && name@ == d@.name),
{
    if d.location.as_str().unicode_len() > 0 {
        Resolution::Recorded(copy_string(&d.location))
    } else {
        Resolution::FromPackage { source: copy_string(&d.source), name: copy_string(&d.name) }
    }
}

} // verus!
