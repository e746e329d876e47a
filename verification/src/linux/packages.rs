//! What the package managers know: `dpkg`, `rpm`, `flatpak`, `snap`.
//!
//! Each collector reads the text its manager printed for a listing and adds one
//! entry per installed package. A manager that is not installed printed
//! nothing, and contributes nothing.

use vstd::prelude::*;

use crate::entry::{entry, entry_of, entry_views, lemma_entry_views_push, Entry, EntryView};
use crate::text::{
    char_views, chars_of, eq_lit, is_ws, join, lemma_split_by_nonempty, lemma_split_join, lemma_words_of_joined,
    lines, split_by,
    split_chars, split_lines, split_words, string_of, words, Sep,
};

verus! {

/// The fields of `line` at index `i`, or the empty string past its end.
pub open spec fn nth_or_empty(f: Seq<Seq<char>>, i: int) -> Seq<char> {
    if 0 <= i < f.len() {
        f[i]
    } else {
        Seq::empty()
    }
}

/// The tab-separated fields of a line.
pub open spec fn tab_fields(l: Seq<char>) -> Seq<Seq<char>> {
    split_by(l, Sep::Char('\t'))
}

/// The field at `i`, or the empty string past the end.
fn field_at(f: &Vec<Vec<char>>, i: usize) -> (r: String)
    ensures
        r@ == nth_or_empty(char_views(f@), i as int),
{
    if i < f.len() {
        string_of(f[i].as_slice())
    } else {
        String::new()
    }
}

// ------------------------------------------------------------------------
// dpkg
// ------------------------------------------------------------------------

/// One line of `dpkg-query -W -f='${Package}\t${Version}\t${Maintainer}\t${db:Status-Status}\n'`:
/// an entry when it has four fields, the status is `installed` and the
/// package name is not empty.
pub open spec fn dpkg_line(l: Seq<char>) -> Option<EntryView> {
    let f = tab_fields(l);
    if f.len() < 4 || f[3] != "installed"@ || f[0].len() == 0 {
        None
    } else {
        Some(entry_of("dpkg"@, f[0], f[1], f[2], Seq::empty(), "system"@))
    }
}

pub open spec fn dpkg_all(ls: Seq<Seq<char>>) -> Seq<EntryView> {
    ls.filter_map(|l: Seq<char>| dpkg_line(l))
}

/// The entries of a `dpkg-query` listing, one per installed package, in order.
pub open spec fn dpkg_entries(text: Seq<char>) -> Seq<EntryView> {
    dpkg_all(lines(text))
}

fn dpkg_line_entry(line: &Vec<char>) -> (r: Option<Entry>)
    ensures
        match dpkg_line(line@) {
            None => r is None,
            Some(e) => r matches Some(x) && x@ == e,
        },
{
    let f = split_chars(line.as_slice(), &Sep::Char('\t'));
    assert(forall|k: int| 0 <= k < f.len() ==> #[trigger] char_views(f@)[k] == f@[k]@);
    if f.len() < 4 || !eq_lit(f[3].as_slice(), "installed") || f[0].len() == 0 {
        return None;
    }
    Some(
        entry(
            "dpkg",
            string_of(f[0].as_slice()),
            string_of(f[1].as_slice()),
            string_of(f[2].as_slice()),
            String::new(),
            "system",
        ),
    )
}

/// Adds an entry for each package a `dpkg-query` listing reports installed.
pub fn collect_dpkg(out: &mut Vec<Entry>, listing: &str)
    ensures
        entry_views(final(out)@) == entry_views(old(out)@) + dpkg_entries(listing@),
{
    let text = chars_of(listing);
    let ls = split_lines(text.as_slice());
    let ghost lv = char_views(ls@);
    let ghost start = entry_views(out@);
    let mut i: usize = 0;
    while i < ls.len()
        invariant
            i <= ls.len(),
            lv == char_views(ls@),
            lv == lines(listing@),
            entry_views(out@) == start + dpkg_all(lv.take(i as int)),
        decreases ls.len() - i,
    {
        proof {
            assert(lv.take(i + 1).drop_last() =~= lv.take(i as int));
            assert(lv.take(i + 1).last() == lv[i as int]);
        }
        match dpkg_line_entry(&ls[i]) {
            Some(e) => {
                proof {
                    lemma_entry_views_push(out@, e);
                }
                out.push(e);
                assert(entry_views(out@) =~= start + dpkg_all(lv.take(i + 1)));
            },
            None => {},
        }
        i += 1;
    }
    assert(lv.take(ls.len() as int) =~= lv);
}

// ------------------------------------------------------------------------
// rpm
// ------------------------------------------------------------------------

/// One line of `rpm -qa --qf '%{NAME}\t%{VERSION}-%{RELEASE}\t%{VENDOR}\n'`:
/// an entry when the name is not empty; a vendor of `(none)` is no publisher.
pub open spec fn rpm_line(l: Seq<char>) -> Option<EntryView> {
    let f = tab_fields(l);
    if f[0].len() == 0 {
        None
    } else {
        let vendor = nth_or_empty(f, 2);
        let publisher = if vendor == "(none)"@ {
            Seq::empty()
        } else {
            vendor
        };
        Some(entry_of("rpm"@, f[0], nth_or_empty(f, 1), publisher, Seq::empty(), "system"@))
    }
}

pub open spec fn rpm_all(ls: Seq<Seq<char>>) -> Seq<EntryView> {
    ls.filter_map(|l: Seq<char>| rpm_line(l))
}

/// The entries of an `rpm -qa` listing, one per line with a name, in order.
pub open spec fn rpm_entries(text: Seq<char>) -> Seq<EntryView> {
    rpm_all(lines(text))
}

fn rpm_line_entry(line: &Vec<char>) -> (r: Option<Entry>)
    ensures
        match rpm_line(line@) {
            None => r is None,
            Some(e) => r matches Some(x) && x@ == e,
        },
{
    let f = split_chars(line.as_slice(), &Sep::Char('\t'));
    proof {
        lemma_split_by_nonempty(line@, Sep::Char('\t'));
    }
    assert(forall|k: int| 0 <= k < f.len() ==> #[trigger] char_views(f@)[k] == f@[k]@);
    if f[0].len() == 0 {
        return None;
    }
    let vendor = field_at(&f, 2);
    let publisher = if eq_lit(chars_of(vendor.as_str()).as_slice(), "(none)") {
        String::new()
    } else {
        vendor
    };
    Some(
        entry(
            "rpm",
            string_of(f[0].as_slice()),
            field_at(&f, 1),
            publisher,
            String::new(),
            "system",
        ),
    )
}

/// Adds an entry for each package an `rpm -qa` listing names.
pub fn collect_rpm(out: &mut Vec<Entry>, listing: &str)
    ensures
        entry_views(final(out)@) == entry_views(old(out)@) + rpm_entries(listing@),
{
    let text = chars_of(listing);
    let ls = split_lines(text.as_slice());
    let ghost lv = char_views(ls@);
    let ghost start = entry_views(out@);
    let mut i: usize = 0;
    while i < ls.len()
        invariant
            i <= ls.len(),
            lv == char_views(ls@),
            lv == lines(listing@),
            entry_views(out@) == start + rpm_all(lv.take(i as int)),
        decreases ls.len() - i,
    {
        proof {
            assert(lv.take(i + 1).drop_last() =~= lv.take(i as int));
            assert(lv.take(i + 1).last() == lv[i as int]);
        }
        match rpm_line_entry(&ls[i]) {
            Some(e) => {
                proof {
                    lemma_entry_views_push(out@, e);
                }
                out.push(e);
                assert(entry_views(out@) =~= start + rpm_all(lv.take(i + 1)));
            },
            None => {},
        }
        i += 1;
    }
    assert(lv.take(ls.len() as int) =~= lv);
}

// ------------------------------------------------------------------------
// flatpak
// ------------------------------------------------------------------------

/// One line of `flatpak list --app --columns=name,version,origin,installation`:
/// an entry when the name is not empty, in the user's scope when the
/// installation is `user` and the system's otherwise.
pub open spec fn flatpak_line(l: Seq<char>) -> Option<EntryView> {
    let f = tab_fields(l);
    if f[0].len() == 0 {
        None
    } else {
        let scope = if f.len() > 3 && f[3] == "user"@ {
            "user"@
        } else {
            "system"@
        };
        Some(
            entry_of(
                "flatpak"@,
                f[0],
                nth_or_empty(f, 1),
                nth_or_empty(f, 2),
                Seq::empty(),
                scope,
            ),
        )
    }
}

pub open spec fn flatpak_all(ls: Seq<Seq<char>>) -> Seq<EntryView> {
    ls.filter_map(|l: Seq<char>| flatpak_line(l))
}

/// The entries of a `flatpak list` listing, one per line with a name, in order.
pub open spec fn flatpak_entries(text: Seq<char>) -> Seq<EntryView> {
    flatpak_all(lines(text))
}

fn flatpak_line_entry(line: &Vec<char>) -> (r: Option<Entry>)
    ensures
        match flatpak_line(line@) {
            None => r is None,
            Some(e) => r matches Some(x) && x@ == e,
        },
{
    let f = split_chars(line.as_slice(), &Sep::Char('\t'));
    proof {
        lemma_split_by_nonempty(line@, Sep::Char('\t'));
    }
    assert(forall|k: int| 0 <= k < f.len() ==> #[trigger] char_views(f@)[k] == f@[k]@);
    if f[0].len() == 0 {
        return None;
    }
    let scope = if f.len() > 3 && eq_lit(f[3].as_slice(), "user") {
        "user"
    } else {
        "system"
    };
    Some(
        entry(
            "flatpak",
            string_of(f[0].as_slice()),
            field_at(&f, 1),
            field_at(&f, 2),
            String::new(),
            scope,
        ),
    )
}

/// Adds an entry for each application a `flatpak list` listing names.
pub fn collect_flatpak(out: &mut Vec<Entry>, listing: &str)
    ensures
        entry_views(final(out)@) == entry_views(old(out)@) + flatpak_entries(listing@),
{
    let text = chars_of(listing);
    let ls = split_lines(text.as_slice());
    let ghost lv = char_views(ls@);
    let ghost start = entry_views(out@);
    let mut i: usize = 0;
    while i < ls.len()
        invariant
            i <= ls.len(),
            lv == char_views(ls@),
            lv == lines(listing@),
            entry_views(out@) == start + flatpak_all(lv.take(i as int)),
        decreases ls.len() - i,
    {
        proof {
            assert(lv.take(i + 1).drop_last() =~= lv.take(i as int));
            assert(lv.take(i + 1).last() == lv[i as int]);
        }
        match flatpak_line_entry(&ls[i]) {
            Some(e) => {
                proof {
                    lemma_entry_views_push(out@, e);
                }
                out.push(e);
                assert(entry_views(out@) =~= start + flatpak_all(lv.take(i + 1)));
            },
            None => {},
        }
        i += 1;
    }
    assert(lv.take(ls.len() as int) =~= lv);
}

// ------------------------------------------------------------------------
// snap
// ------------------------------------------------------------------------

/// One line of `snap list` (columns `Name Version Rev Tracking Publisher
/// Notes`, separated by runs of spaces): an entry when it has a first word.
pub open spec fn snap_line(l: Seq<char>) -> Option<EntryView> {
    let f = words(l);
    if f.len() == 0 || f[0].len() == 0 {
        None
    } else {
        Some(
            entry_of(
                "snap"@,
                f[0],
                nth_or_empty(f, 1),
                nth_or_empty(f, 4),
                Seq::empty(),
                "system"@,
            ),
        )
    }
}

pub open spec fn snap_all(ls: Seq<Seq<char>>) -> Seq<EntryView> {
    ls.filter_map(|l: Seq<char>| snap_line(l))
}

/// The entries of a `snap list` listing: every line after the header with a
/// first word, in order.
pub open spec fn snap_entries(text: Seq<char>) -> Seq<EntryView> {
    let ls = lines(text);
    if ls.len() == 0 {
        Seq::empty()
    } else {
        snap_all(ls.drop_first())
    }
}

fn snap_line_entry(line: &Vec<char>) -> (r: Option<Entry>)
    ensures
        match snap_line(line@) {
            None => r is None,
            Some(e) => r matches Some(x) && x@ == e,
        },
{
    let f = split_words(line.as_slice());
    assert(forall|k: int| 0 <= k < f.len() ==> #[trigger] char_views(f@)[k] == f@[k]@);
    if f.len() == 0 || f[0].len() == 0 {
        return None;
    }
    Some(
        entry(
            "snap",
            string_of(f[0].as_slice()),
            field_at(&f, 1),
            field_at(&f, 4),
            String::new(),
            "system",
        ),
    )
}

/// Adds an entry for each snap a `snap list` listing names, skipping its
/// header line.
pub fn collect_snap(out: &mut Vec<Entry>, listing: &str)
    ensures
        entry_views(final(out)@) == entry_views(old(out)@) + snap_entries(listing@),
{
    let text = chars_of(listing);
    let ls = split_lines(text.as_slice());
    let ghost lv = char_views(ls@);
    let ghost start = entry_views(out@);
    if ls.len() == 0 {
        assert(entry_views(out@) =~= start + snap_entries(listing@));
        return;
    }
    let ghost body = lv.drop_first();
    let mut i: usize = 1;
    while i < ls.len()
        invariant
            1 <= i <= ls.len(),
            lv == char_views(ls@),
            lv == lines(listing@),
            body == lv.drop_first(),
            entry_views(out@) == start + snap_all(body.take(i - 1)),
        decreases ls.len() - i,
    {
        proof {
            assert(body.take(i as int).drop_last() =~= body.take(i - 1));
            assert(body.take(i as int).last() == lv[i as int]);
        }
        match snap_line_entry(&ls[i]) {
            Some(e) => {
                proof {
                    lemma_entry_views_push(out@, e);
                }
                out.push(e);
                assert(entry_views(out@) =~= start + snap_all(body.take(i as int)));
            },
            None => {},
        }
        i += 1;
    }
    assert(body.take(ls.len() - 1) =~= body);
}

/// The package managers whose listings are read.
#[derive(Clone, Copy, Debug, PartialEq, Eq)]
pub enum Manager {
    Dpkg,
    Rpm,
    Flatpak,
    Snap,
}

/// The program to run, and its arguments, for a manager's listing.
pub open spec fn listing_argv(m: Manager) -> Seq<Seq<char>> {
    match m {
        Manager::Dpkg => seq![
            "dpkg-query"@,
            "-W"@,
            "-f=${Package}\t${Version}\t${Maintainer}\t${db:Status-Status}\n"@,
        ],
        Manager::Rpm => seq!["rpm"@, "-qa"@, "--qf"@, "%{NAME}\t%{VERSION}-%{RELEASE}\t%{VENDOR}\n"@],
        Manager::Flatpak => seq![
            "flatpak"@,
            "list"@,
            "--app"@,
            "--columns=name,version,origin,installation"@,
        ],
        Manager::Snap => seq!["snap"@, "list"@],
    }
}

/// The command line whose output a manager's collector reads: the program
/// first, then its arguments.
pub fn listing_command(m: Manager) -> (r: Vec<String>)
    ensures
        crate::text::string_views(r@) == listing_argv(m),
{
    let mut r: Vec<String> = Vec::new();
    match m {
        Manager::Dpkg => {
            r.push(crate::text::owned("dpkg-query"));
            r.push(crate::text::owned("-W"));
            r.push(
                crate::text::owned(
                    "-f=${Package}\t${Version}\t${Maintainer}\t${db:Status-Status}\n",
                ),
            );
        },
        Manager::Rpm => {
            r.push(crate::text::owned("rpm"));
            r.push(crate::text::owned("-qa"));
            r.push(crate::text::owned("--qf"));
            r.push(crate::text::owned("%{NAME}\t%{VERSION}-%{RELEASE}\t%{VENDOR}\n"));
        },
        Manager::Flatpak => {
            r.push(crate::text::owned("flatpak"));
            r.push(crate::text::owned("list"));
            r.push(crate::text::owned("--app"));
            r.push(crate::text::owned("--columns=name,version,origin,installation"));
        },
        Manager::Snap => {
            r.push(crate::text::owned("snap"));
            r.push(crate::text::owned("list"));
        },
    }
    assert(crate::text::string_views(r@) =~= listing_argv(m));
    r
}


// ------------------------------------------------------------------------
// What each listing's columns mean
// ------------------------------------------------------------------------

/// Whether a column holds no tab.
pub open spec fn tabless(f: Seq<char>) -> bool {
    !f.contains('\t')
}

proof fn lemma_fields4(a: Seq<char>, b: Seq<char>, c: Seq<char>, d: Seq<char>)
    requires
        tabless(a),
        tabless(b),
        tabless(c),
        tabless(d),
    ensures
        tab_fields(a + seq!['\t'] + b + seq!['\t'] + c + seq!['\t'] + d) == seq![a, b, c, d],
{
    let parts = seq![a, b, c, d];
    assert(parts.drop_last() =~= seq![a, b, c]);
    assert(seq![a, b, c].drop_last() =~= seq![a, b]);
    assert(seq![a, b].drop_last() =~= seq![a]);
    assert(join(seq![a], seq!['\t']) == a);
    assert(join(seq![a, b], seq!['\t']) == a + seq!['\t'] + b);
    assert(join(seq![a, b, c], seq!['\t']) == a + seq!['\t'] + b + seq!['\t'] + c);
    assert(join(parts, seq!['\t']) == a + seq!['\t'] + b + seq!['\t'] + c + seq!['\t'] + d);
    assert forall|k: int| 0 <= k < parts.len() implies !(#[trigger] parts[k]).contains('\t') by {}
    lemma_split_join(parts, '\t');
}

proof fn lemma_fields3(a: Seq<char>, b: Seq<char>, c: Seq<char>)
    requires
        tabless(a),
        tabless(b),
        tabless(c),
    ensures
        tab_fields(a + seq!['\t'] + b + seq!['\t'] + c) == seq![a, b, c],
{
    let parts = seq![a, b, c];
    assert(parts.drop_last() =~= seq![a, b]);
    assert(seq![a, b].drop_last() =~= seq![a]);
    assert(join(seq![a], seq!['\t']) == a);
    assert(join(seq![a, b], seq!['\t']) == a + seq!['\t'] + b);
    assert(join(parts, seq!['\t']) == a + seq!['\t'] + b + seq!['\t'] + c);
    assert forall|k: int| 0 <= k < parts.len() implies !(#[trigger] parts[k]).contains('\t') by {}
    lemma_split_join(parts, '\t');
}

/// A `dpkg-query` line `package⇥version⇥maintainer⇥status` is the package,
/// installed system-wide with that version and the maintainer as publisher,
/// when its status is `installed` and it names a package; nothing otherwise.
pub proof fn lemma_dpkg_columns(package: Seq<char>, version: Seq<char>, maintainer: Seq<char>, status: Seq<char>)
    requires
        tabless(package),
        tabless(version),
        tabless(maintainer),
        tabless(status),
    ensures
        dpkg_line(package + seq!['\t'] + version + seq!['\t'] + maintainer + seq!['\t'] + status) == if status
            == "installed"@ && package.len() > 0 {
            Some(
                EntryView {
                    source: "dpkg"@,
                    name: package,
                    version: version,
                    publisher: maintainer,
                    location: Seq::empty(),
                    scope: "system"@,
                },
            )
        } else {
            None
        },
{
    lemma_fields4(package, version, maintainer, status);
}

/// An `rpm -qa` line `name⇥version-release⇥vendor` is the package, installed
/// system-wide with that version and the vendor as publisher (none when the
/// vendor is `(none)`), when it names a package; nothing otherwise.
pub proof fn lemma_rpm_columns(name: Seq<char>, version: Seq<char>, vendor: Seq<char>)
    requires
        tabless(name),
        tabless(version),
        tabless(vendor),
    ensures
        rpm_line(name + seq!['\t'] + version + seq!['\t'] + vendor) == if name.len() > 0 {
            Some(
                EntryView {
                    source: "rpm"@,
                    name: name,
                    version: version,
                    publisher: if vendor == "(none)"@ {
                        Seq::empty()
                    } else {
                        vendor
                    },
                    location: Seq::empty(),
                    scope: "system"@,
                },
            )
        } else {
            None
        },
{
    lemma_fields3(name, version, vendor);
}

/// A `flatpak list` line `name⇥version⇥origin⇥installation` is the
/// application of that name with that version and its origin as publisher, in
/// the user's scope when installed per user and the system's otherwise, when
/// it names an application; nothing otherwise.
pub proof fn lemma_flatpak_columns(name: Seq<char>, version: Seq<char>, origin: Seq<char>, installation: Seq<char>)
    requires
        tabless(name),
        tabless(version),
        tabless(origin),
        tabless(installation),
    ensures
        flatpak_line(name + seq!['\t'] + version + seq!['\t'] + origin + seq!['\t'] + installation) == if name.len()
            > 0 {
            Some(
                EntryView {
                    source: "flatpak"@,
                    name: name,
                    version: version,
                    publisher: origin,
                    location: Seq::empty(),
                    scope: if installation == "user"@ {
                        "user"@
                    } else {
                        "system"@
                    },
                },
            )
        } else {
            None
        },
{
    lemma_fields4(name, version, origin, installation);
}


/// Whether a column is one word: not empty, and no whitespace in it.
pub open spec fn one_word(w: Seq<char>) -> bool {
    w.len() > 0 && forall|i: int| 0 <= i < w.len() ==> !is_ws(#[trigger] w[i])
}

/// A `snap list` row `name version rev tracking publisher notes` (one word
/// each, spaces between) is the snap of that name, installed system-wide with
/// that version and that publisher.
pub proof fn lemma_snap_columns(
    name: Seq<char>,
    version: Seq<char>,
    rev: Seq<char>,
    tracking: Seq<char>,
    publisher: Seq<char>,
    notes: Seq<char>,
)
    requires
        one_word(name),
        one_word(version),
        one_word(rev),
        one_word(tracking),
        one_word(publisher),
        one_word(notes),
    ensures
        snap_line(
            name + seq![' '] + version + seq![' '] + rev + seq![' '] + tracking + seq![' '] + publisher + seq![' ']
                + notes,
        ) == Some(
            EntryView {
                source: "snap"@,
                name: name,
                version: version,
                publisher: publisher,
                location: Seq::empty(),
                scope: "system"@,
            },
        ),
{
    let sp = seq![' '];
    let parts = seq![name, version, rev, tracking, publisher, notes];
    assert(parts.drop_last() =~= seq![name, version, rev, tracking, publisher]);
    assert(seq![name, version, rev, tracking, publisher].drop_last() =~= seq![name, version, rev, tracking]);
    assert(seq![name, version, rev, tracking].drop_last() =~= seq![name, version, rev]);
    assert(seq![name, version, rev].drop_last() =~= seq![name, version]);
    assert(seq![name, version].drop_last() =~= seq![name]);
    assert(join(seq![name], sp) == name);
    assert(join(seq![name, version], sp) == name + sp + version);
    assert(join(seq![name, version, rev], sp) == name + sp + version + sp + rev);
    assert(join(seq![name, version, rev, tracking], sp) == name + sp + version + sp + rev + sp + tracking);
    assert(join(seq![name, version, rev, tracking, publisher], sp) == name + sp + version + sp + rev + sp
        + tracking + sp + publisher);
    assert(join(parts, sp) == name + sp + version + sp + rev + sp + tracking + sp + publisher + sp + notes);
    assert forall|k: int| 0 <= k < parts.len() implies (#[trigger] parts[k]).len() > 0 by {}
    assert forall|k: int, i: int| 0 <= k < parts.len() && 0 <= i < parts[k].len() implies !is_ws(
        #[trigger] parts[k][i],
    ) by {
        assert(one_word(parts[k]));
    }
    lemma_words_of_joined(parts);
}

} // verus!
