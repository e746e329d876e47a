//! Reading one `Uninstall` view, and dropping what isn't a program.

use vstd::prelude::*;

use crate::entry::{entry, entry_of, entry_views, lemma_entry_views_push, Entry, EntryView};
use crate::text::{chars_of, eq_chars, eq_lit, join, lemma_split_join, push_chars, string_of, trim, trim_chars};

verus! {

/// The values one subkey of an `Uninstall` view holds: each string value and
/// the `SystemComponent` number, absent when the subkey has no such value (or
/// it has another type).
#[derive(Clone, Debug, PartialEq, Eq)]
pub struct UninstallKey {
    pub display_name: Option<String>,
    pub display_version: Option<String>,
    pub publisher: Option<String>,
    pub install_location: Option<String>,
    pub release_type: Option<String>,
    pub parent_key_name: Option<String>,
    pub system_component: Option<u32>,
}

/// A string value, trimmed; the empty string when absent.
pub open spec fn sval(v: Option<String>) -> Seq<char> {
    match v {
        Some(s) => trim(s@),
        None => trim(Seq::empty()),
    }
}

/// A number value; zero when absent.
pub open spec fn u32val(v: Option<u32>) -> u32 {
    match v {
        Some(n) => n,
        None => 0,
    }
}

fn sval_of(v: &Option<String>) -> (r: Vec<char>)
    ensures
        r@ == sval(*v),
{
    match v {
        Some(s) => {
            let c = chars_of(s.as_str());
            trim_chars(c.as_slice())
        },
        None => {
            let c: Vec<char> = Vec::new();
            trim_chars(c.as_slice())
        },
    }
}

/// Whether a release type marks an update or a patch rather than a program.
pub open spec fn is_update(release_type: Seq<char>) -> bool {
    release_type == "Update"@ || release_type == "Hotfix"@ || release_type == "Security Update"@
}

/// The record a subkey yields in `scope`: none when it has no display name (it is
/// not shown in Add/Remove Programs), is an OS component (`SystemComponent`
/// is 1), is an update or patch, or belongs to another product
/// (`ParentKeyName` is set).
pub open spec fn uninstall_item(k: UninstallKey, scope: Seq<char>) -> Option<EntryView> {
    let display = sval(k.display_name);
    if display.len() == 0 {
        None
    } else if u32val(k.system_component) == 1 {
        None
    } else if is_update(sval(k.release_type)) {
        None
    } else if sval(k.parent_key_name).len() > 0 {
        None
    } else {
        Some(
            entry_of(
                "registry-uninstall"@,
                display,
                sval(k.display_version),
                sval(k.publisher),
                sval(k.install_location),
                scope,
            ),
        )
    }
}

pub open spec fn uninstall_all(keys: Seq<UninstallKey>, scope: Seq<char>) -> Seq<EntryView>
    decreases keys.len(),
{
    if keys.len() == 0 {
        Seq::empty()
    } else {
        let rest = uninstall_all(keys.drop_last(), scope);
        match uninstall_item(keys.last(), scope) {
            Some(e) => rest.push(e),
            None => rest,
        }
    }
}

/// Whether a subkey is a program the user sees in Add/Remove Programs: it has
/// a display name, and is no OS component, no update or patch, and no part of
/// another product.
pub open spec fn is_listed_program(k: UninstallKey) -> bool {
    &&& sval(k.display_name).len() > 0
    &&& u32val(k.system_component) != 1
    &&& !is_update(sval(k.release_type))
    &&& sval(k.parent_key_name).len() == 0
}

/// Each record of a view comes from one of its subkeys that is a listed
/// program, in the scope the view was read in.
pub proof fn lemma_uninstall_all_from_keys(keys: Seq<UninstallKey>, scope: Seq<char>, e: EntryView)
    requires
        uninstall_all(keys, scope).contains(e),
    ensures
        exists|k: UninstallKey| #[trigger] keys.contains(k) && is_listed_program(k) && uninstall_item(k, scope) == Some(e),
        e.scope == scope,
    decreases keys.len(),
{
    let rest = uninstall_all(keys.drop_last(), scope);
    let last = keys.last();
    if rest.contains(e) {
        lemma_uninstall_all_from_keys(keys.drop_last(), scope, e);
        let k = choose|k: UninstallKey| #[trigger] keys.drop_last().contains(k) && is_listed_program(k)
            && uninstall_item(k, scope) == Some(e);
        let j = choose|j: int| 0 <= j < keys.drop_last().len() && keys.drop_last()[j] == k;
        assert(keys[j] == k);
        assert(keys.contains(k));
    } else {
        assert(uninstall_item(last, scope) == Some(e));
        assert(keys[keys.len() - 1] == last);
        assert(keys.contains(last));
    }
}

fn uninstall_entry(k: &UninstallKey, scope: &str) -> (r: Option<Entry>)
    ensures
        match uninstall_item(*k, scope@) {
            None => r is None,
            Some(e) => r matches Some(x) && x@ == e,
        },
{
    let display = sval_of(&k.display_name);
    if display.len() == 0 {
        return None;
    }
    let component = match k.system_component {
        Some(n) => n,
        None => 0,
    };
    if component == 1 {
        return None;
    }
    let release = sval_of(&k.release_type);
    if eq_lit(release.as_slice(), "Update") || eq_lit(release.as_slice(), "Hotfix") || eq_lit(
        release.as_slice(),
        "Security Update",
    ) {
        return None;
    }
    let parent = sval_of(&k.parent_key_name);
    if parent.len() > 0 {
        return None;
    }
    Some(
        entry(
            "registry-uninstall",
            string_of(display.as_slice()),
            string_of(sval_of(&k.display_version).as_slice()),
            string_of(sval_of(&k.publisher).as_slice()),
            string_of(sval_of(&k.install_location).as_slice()),
            scope,
        ),
    )
}

/// Adds a `registry-uninstall` entry in `scope` for each subkey of an `Uninstall`
/// view that is a program the user would see in Add/Remove Programs.
pub fn collect(out: &mut Vec<Entry>, keys: &[UninstallKey], scope: &str)
    ensures
        entry_views(final(out)@) == entry_views(old(out)@) + uninstall_all(keys@, scope@),
{
    let ghost start = entry_views(out@);
    let mut i: usize = 0;
    while i < keys.len()
        invariant
            i <= keys.len(),
            entry_views(out@) == start + uninstall_all(keys@.take(i as int), scope@),
        decreases keys.len() - i,
    {
        proof {
            assert(keys@.take(i + 1).drop_last() =~= keys@.take(i as int));
            assert(keys@.take(i + 1).last() == keys@[i as int]);
        }
        match uninstall_entry(&keys[i], scope) {
            Some(e) => {
                proof {
                    lemma_entry_views_push(out@, e);
                }
                out.push(e);
                assert(entry_views(out@) =~= start + uninstall_all(keys@.take(i + 1), scope@));
            },
            None => {},
        }
        i += 1;
    }
    assert(keys@.take(keys.len() as int) =~= keys@);
}

/// What makes two rows the same program for `dedup`: name, version and scope,
/// joined by `U+0001`.
pub open spec fn dedup_key(e: EntryView) -> Seq<char> {
    e.name + seq!['\u{1}'] + e.version + seq!['\u{1}'] + e.scope
}

/// `s` with every row whose key an earlier row already had dropped.
pub open spec fn dedup_spec(s: Seq<EntryView>) -> Seq<EntryView>
    decreases s.len(),
{
    if s.len() == 0 {
        Seq::empty()
    } else {
        let rest = dedup_spec(s.drop_last());
        if exists|j: int| 0 <= j < s.len() - 1 && dedup_key(#[trigger] s[j]) == dedup_key(s.last()) {
            rest
        } else {
            rest.push(s.last())
        }
    }
}

fn key_of(e: &Entry) -> (r: Vec<char>)
    ensures
        r@ == dedup_key(e@),
{
    let mut k = crate::text::copy_string(&e.name);
    push_chars(&mut k, &['\u{1}']);
    let v = chars_of(e.version.as_str());
    push_chars(&mut k, v.as_slice());
    push_chars(&mut k, &['\u{1}']);
    let s = chars_of(e.scope.as_str());
    push_chars(&mut k, s.as_slice());
    let r = chars_of(k.as_str());
    assert(r@ =~= dedup_key(e@));
    r
}

/// Drops duplicate (name, version, scope) rows, keeping the first of each: an
/// all-users product can surface in both the 64- and the 32-bit view.
pub fn dedup(entries: &mut Vec<Entry>)
    ensures
        entry_views(final(entries)@) == dedup_spec(entry_views(old(entries)@)),
{
    let ghost s = entry_views(entries@);
    let mut kept: Vec<Entry> = Vec::new();
    let mut seen: Vec<Vec<char>> = Vec::new();
    let mut i: usize = 0;
    while i < entries.len()
        invariant
            s == entry_views(entries@),
            i <= entries.len(),
            seen.len() == i,
            forall|j: int| 0 <= j < i ==> #[trigger] seen@[j]@ == dedup_key(s[j]),
            entry_views(kept@) == dedup_spec(s.take(i as int)),
        decreases entries.len() - i,
    {
        let k = key_of(&entries[i]);
        let mut found = false;
        let mut j: usize = 0;
        while j < seen.len()
            invariant
                j <= seen.len() == i,
                i < entries.len(),
                s == entry_views(entries@),
                k@ == dedup_key(s[i as int]),
                forall|m: int| 0 <= m < i ==> #[trigger] seen@[m]@ == dedup_key(s[m]),
                found == exists|m: int| 0 <= m < j && dedup_key(#[trigger] s[m]) == k@,
            decreases seen.len() - j,
        {
            if eq_chars(seen[j].as_slice(), k.as_slice()) {
                found = true;
            }
            j += 1;
        }
        proof {
            let t = s.take(i + 1);
            assert(t.drop_last() =~= s.take(i as int));
            assert(t.last() == s[i as int]);
            assert((exists|m: int| 0 <= m < t.len() - 1 && dedup_key(#[trigger] t[m]) == dedup_key(
                t.last(),
            )) == found) by {
                if found {
                    let m = choose|m: int| 0 <= m < i && dedup_key(#[trigger] s[m]) == k@;
                    assert(t[m] == s[m]);
                }
                if exists|m: int| 0 <= m < t.len() - 1 && dedup_key(#[trigger] t[m]) == dedup_key(
                    t.last(),
                ) {
                    let m = choose|m: int|
                        0 <= m < t.len() - 1 && dedup_key(#[trigger] t[m]) == dedup_key(t.last());
                    assert(t[m] == s[m]);
                }
            }
        }
        if !found {
            let e = entries[i].duplicate();
            proof {
                lemma_entry_views_push(kept@, e);
            }
            kept.push(e);
        }
        seen.push(k);
        i += 1;
    }
    assert(s.take(entries.len() as int) =~= s);
    *entries = kept;
}

/// Every row `dedup` keeps is a row it was given.
pub proof fn lemma_dedup_keeps_given_rows(s: Seq<EntryView>)
    ensures
        forall|i: int| 0 <= i < dedup_spec(s).len() ==> s.contains(#[trigger] dedup_spec(s)[i]),
        dedup_spec(s).len() <= s.len(),
    decreases s.len(),
{
    if s.len() > 0 {
        let t = s.drop_last();
        lemma_dedup_keeps_given_rows(t);
        let d = dedup_spec(s);
        assert forall|i: int| 0 <= i < d.len() implies s.contains(#[trigger] d[i]) by {
            if i < dedup_spec(t).len() {
                assert(d[i] == dedup_spec(t)[i]);
                assert(t.contains(d[i]));
                let k = choose|k: int| 0 <= k < t.len() && t[k] == d[i];
                assert(s[k] == t[k]);
            } else {
                assert(d[i] == s.last());
                assert(s[s.len() - 1] == s.last());
            }
        }
    }
}

/// After `dedup`, no two rows share a (name, version, scope) key.
pub proof fn lemma_dedup_unique(s: Seq<EntryView>)
    ensures
        forall|i: int, j: int|
            0 <= i < j < dedup_spec(s).len() ==> dedup_key(#[trigger] dedup_spec(s)[i]) != dedup_key(
                #[trigger] dedup_spec(s)[j],
            ),
    decreases s.len(),
{
    if s.len() > 0 {
        let t = s.drop_last();
        lemma_dedup_unique(t);
        lemma_dedup_keeps_given_rows(t);
        let dt = dedup_spec(t);
        let d = dedup_spec(s);
        if !(exists|j: int| 0 <= j < s.len() - 1 && dedup_key(#[trigger] s[j]) == dedup_key(s.last())) {
            assert forall|i: int, j: int| 0 <= i < j < d.len() implies dedup_key(#[trigger] d[i]) != dedup_key(#[trigger] d[j]) by {
                if j < dt.len() {
                    assert(d[i] == dt[i] && d[j] == dt[j]);
                } else {
                    assert(d[i] == dt[i]);
                    assert(d[j] == s.last());
                    assert(t.contains(dt[i]));
                    let k = choose|k: int| 0 <= k < t.len() && t[k] == dt[i];
                    assert(s[k] == t[k]);
                }
            }
        }
    }
}

/// Every (name, version, scope) key of the given rows is the key of a row
/// `dedup` keeps: only repeats are dropped.
pub proof fn lemma_dedup_keeps_every_key(s: Seq<EntryView>)
    ensures
        forall|k: int|
            0 <= k < s.len() ==> exists|i: int|
                0 <= i < dedup_spec(s).len() && dedup_key(#[trigger] dedup_spec(s)[i]) == dedup_key(
                    #[trigger] s[k],
                ),
    decreases s.len(),
{
    if s.len() > 0 {
        let t = s.drop_last();
        lemma_dedup_keeps_every_key(t);
        let dt = dedup_spec(t);
        let d = dedup_spec(s);
        assert forall|k: int| 0 <= k < s.len() implies exists|i: int|
            0 <= i < d.len() && dedup_key(#[trigger] d[i]) == dedup_key(#[trigger] s[k]) by {
            if k < s.len() - 1 {
                assert(s[k] == t[k]);
                let i = choose|i: int| 0 <= i < dt.len() && dedup_key(#[trigger] dt[i]) == dedup_key(t[k]);
                assert(d[i] == dt[i]);
            } else if exists|j: int| 0 <= j < s.len() - 1 && dedup_key(#[trigger] s[j]) == dedup_key(s.last()) {
                let j = choose|j: int| 0 <= j < s.len() - 1 && dedup_key(#[trigger] s[j]) == dedup_key(s.last());
                assert(s[j] == t[j]);
                let i = choose|i: int| 0 <= i < dt.len() && dedup_key(#[trigger] dt[i]) == dedup_key(t[j]);
                assert(d[i] == dt[i]);
            } else {
                assert(d[dt.len() as int] == s.last());
            }
        }
    }
}


/// Rows whose keys are all different are kept as they are.
pub proof fn lemma_dedup_keeps_unique(s: Seq<EntryView>)
    requires
        forall|i: int, j: int| 0 <= i < j < s.len() ==> dedup_key(#[trigger] s[i]) != dedup_key(#[trigger] s[j]),
    ensures
        dedup_spec(s) == s,
    decreases s.len(),
{
    if s.len() > 0 {
        let t = s.drop_last();
        assert forall|i: int, j: int| 0 <= i < j < t.len() implies dedup_key(#[trigger] t[i]) != dedup_key(#[trigger] t[j]) by {
            assert(t[i] == s[i] && t[j] == s[j]);
        }
        lemma_dedup_keeps_unique(t);
        assert(!exists|j: int| 0 <= j < s.len() - 1 && dedup_key(#[trigger] s[j]) == dedup_key(s.last())) by {
            assert forall|j: int| 0 <= j < s.len() - 1 implies dedup_key(#[trigger] s[j]) != dedup_key(s.last()) by {
                assert(s.last() == s[s.len() - 1]);
            }
        }
        assert(t.push(s.last()) =~= s);
    }
}

/// Dropping duplicates twice drops nothing more than once.
pub proof fn lemma_dedup_idempotent(s: Seq<EntryView>)
    ensures
        dedup_spec(dedup_spec(s)) == dedup_spec(s),
{
    lemma_dedup_unique(s);
    lemma_dedup_keeps_unique(dedup_spec(s));
}


/// What a subkey yields: nothing when it has no display name (after
/// trimming), is an OS component (`SystemComponent` is 1), is an update or a
/// patch (`ReleaseType` is `Update`, `Hotfix` or `Security Update`), or is part
/// of another product (`ParentKeyName` is set); otherwise a
/// `registry-uninstall` record of its trimmed values in the scope it was read
/// in.
pub proof fn lemma_what_a_subkey_yields(k: UninstallKey, scope: Seq<char>)
    ensures
        uninstall_item(k, scope) is None <==> (sval(k.display_name).len() == 0 || k.system_component == Some(
            1u32,
        ) || sval(k.release_type) == "Update"@ || sval(k.release_type) == "Hotfix"@ || sval(k.release_type)
            == "Security Update"@ || sval(k.parent_key_name).len() > 0),
        uninstall_item(k, scope) is Some ==> uninstall_item(k, scope) == Some(
            EntryView {
                source: "registry-uninstall"@,
                name: sval(k.display_name),
                version: sval(k.display_version),
                publisher: sval(k.publisher),
                location: sval(k.install_location),
                scope: scope,
            },
        ),
{
}

/// No update, patch or OS component is ever listed: every record of a view
/// comes from a subkey that is none of them.
pub proof fn lemma_no_updates_listed(keys: Seq<UninstallKey>, scope: Seq<char>, e: EntryView)
    requires
        uninstall_all(keys, scope).contains(e),
    ensures
        exists|k: UninstallKey|
            #[trigger] keys.contains(k) && uninstall_item(k, scope) == Some(e) && sval(k.release_type) != "Update"@
                && sval(k.release_type) != "Hotfix"@ && sval(k.release_type) != "Security Update"@
                && k.system_component != Some(1u32),
{
    lemma_uninstall_all_from_keys(keys, scope, e);
    let k = choose|k: UninstallKey| #[trigger] keys.contains(k) && is_listed_program(k) && uninstall_item(k, scope) == Some(e);
    lemma_what_a_subkey_yields(k, scope);
}


/// Whether two records agree on name, version and scope.
pub open spec fn same_program(a: EntryView, b: EntryView) -> bool {
    a.name == b.name && a.version == b.version && a.scope == b.scope
}

/// Whether none of a record's name, version and scope holds the character
/// that separates them in its key.
pub open spec fn plain_key(e: EntryView) -> bool {
    !e.name.contains('\u{1}') && !e.version.contains('\u{1}') && !e.scope.contains('\u{1}')
}

proof fn lemma_key_fields(a: EntryView, b: EntryView)
    requires
        plain_key(a),
        plain_key(b),
        dedup_key(a) == dedup_key(b),
    ensures
        same_program(a, b),
{
    let c = '\u{1}';
    let pa = seq![a.name, a.version, a.scope];
    let pb = seq![b.name, b.version, b.scope];
    assert(pa.drop_last() =~= seq![a.name, a.version]);
    assert(seq![a.name, a.version].drop_last() =~= seq![a.name]);
    assert(pb.drop_last() =~= seq![b.name, b.version]);
    assert(seq![b.name, b.version].drop_last() =~= seq![b.name]);
    assert(join(seq![a.name], seq![c]) == a.name);
    assert(join(seq![a.name, a.version], seq![c]) == a.name + seq![c] + a.version);
    assert(join(pa, seq![c]) =~= dedup_key(a));
    assert(join(seq![b.name], seq![c]) == b.name);
    assert(join(seq![b.name, b.version], seq![c]) == b.name + seq![c] + b.version);
    assert(join(pb, seq![c]) =~= dedup_key(b));
    assert forall|k: int| 0 <= k < pa.len() implies !(#[trigger] pa[k]).contains(c) by {}
    assert forall|k: int| 0 <= k < pb.len() implies !(#[trigger] pb[k]).contains(c) by {}
    lemma_split_join(pa, c);
    lemma_split_join(pb, c);
    assert(pa[0] == pb[0] && pa[1] == pb[1] && pa[2] == pb[2]);
}

/// Dropping duplicates keeps one row per (name, version, scope): no two kept
/// rows are the same program, and every program of the given rows keeps a row
/// (when no row's name, version or scope holds `\u{1}`, the key's separator).
pub proof fn lemma_dedup_one_row_per_program(s: Seq<EntryView>)
    ensures
        forall|i: int, j: int|
            0 <= i < j < dedup_spec(s).len() ==> !same_program(#[trigger] dedup_spec(s)[i], #[trigger] dedup_spec(s)[j]),
        (forall|m: int| 0 <= m < s.len() ==> plain_key(#[trigger] s[m])) ==> forall|k: int|
            0 <= k < s.len() ==> exists|i: int|
                0 <= i < dedup_spec(s).len() && same_program(#[trigger] dedup_spec(s)[i], #[trigger] s[k]),
{
    let d = dedup_spec(s);
    lemma_dedup_unique(s);
    lemma_dedup_keeps_every_key(s);
    lemma_dedup_keeps_given_rows(s);
    assert forall|i: int, j: int| 0 <= i < j < d.len() implies !same_program(#[trigger] d[i], #[trigger] d[j]) by {
        assert(dedup_key(d[i]) != dedup_key(d[j]));
    }
    if forall|m: int| 0 <= m < s.len() ==> plain_key(#[trigger] s[m]) {
        assert forall|k: int| 0 <= k < s.len() implies exists|i: int|
            0 <= i < d.len() && same_program(#[trigger] d[i], #[trigger] s[k]) by {
            let i = choose|i: int| 0 <= i < d.len() && dedup_key(#[trigger] d[i]) == dedup_key(s[k]);
            assert(s.contains(d[i]));
            let m = choose|m: int| 0 <= m < s.len() && s[m] == d[i];
            assert(plain_key(s[m]));
            lemma_key_fields(d[i], s[k]);
        }
    }
}

} // verus!
