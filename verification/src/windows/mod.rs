//! What is installed on a Windows machine: the `Uninstall` registry keys that
//! back Add/Remove Programs.
//!
//! - HKLM `…\CurrentVersion\Uninstall`: 64-bit machine-wide installs;
//! - HKLM `…\WOW6432Node\…\Uninstall`: 32-bit machine-wide installs;
//! - HKCU `…\CurrentVersion\Uninstall`: per-user installs.
//!
//! ```text
//!   uninstall  reading one Uninstall view, and dropping what isn't a program
//! ```

pub mod uninstall;

use vstd::prelude::*;

use crate::entry::{entry_views, in_schema_scope, Entry, EntryView};
use crate::inventory::{
    goes_before, is_stable_order, keys_of, lemma_goes_before_irreflexive, lemma_sorted_is_permutation,
    sort_by_name, sorted_by_name, Inventory,
};
use crate::text::owned;
use uninstall::{
    collect, dedup, dedup_key, dedup_spec, is_listed_program, lemma_dedup_keeps_given_rows,
    lemma_dedup_unique, lemma_uninstall_all_from_keys, uninstall_all, uninstall_item, UninstallKey,
};

verus! {

/// The 64-bit (and per-user) `Uninstall` key.
pub const UNINSTALL: &'static str = "SOFTWARE\\Microsoft\\Windows\\CurrentVersion\\Uninstall";

/// The 32-bit view of the machine-wide `Uninstall` key.
pub const UNINSTALL_WOW: &'static str = "SOFTWARE\\WOW6432Node\\Microsoft\\Windows\\CurrentVersion\\Uninstall";

/// What was read from the registry: the subkeys of the machine-wide 64-bit
/// and 32-bit views and of the current user's view (none for a view that is
/// missing or cannot be opened).
#[derive(Clone, Debug, PartialEq, Eq)]
pub struct WindowsScan {
    pub machine: Vec<UninstallKey>,
    pub machine_wow: Vec<UninstallKey>,
    pub user: Vec<UninstallKey>,
}

/// Every record the three views yield: the machine-wide ones in the system's
/// scope, the user's in the user's scope.
pub open spec fn windows_collected(scan: WindowsScan) -> Seq<EntryView> {
    uninstall_all(scan.machine@, "system"@) + uninstall_all(scan.machine_wow@, "system"@)
        + uninstall_all(scan.user@, "user"@)
}

/// The note a Windows listing carries.
pub open spec fn windows_note() -> Seq<char> {
    "Installed programs from the Uninstall registry keys (Add/Remove Programs): HKLM 64- and 32-bit, and HKCU per-user installs."@
}

/// The installed programs the registry lists: the records of the three views,
/// duplicates dropped, sorted by lowercased name (equal names keep their
/// order), with their count.
pub fn list_programs(scan: &WindowsScan) -> (r: Inventory)
    ensures
        r.os@ == "windows"@,
        r.note@ == windows_note(),
        r.total == r.entries.len(),
        sorted_by_name(dedup_spec(windows_collected(*scan)), entry_views(r.entries@)),
{
    let mut entries: Vec<Entry> = Vec::new();
    collect(&mut entries, scan.machine.as_slice(), "system");
    collect(&mut entries, scan.machine_wow.as_slice(), "system");
    collect(&mut entries, scan.user.as_slice(), "user");
    assert(entry_views(entries@) =~= windows_collected(*scan));
    dedup(&mut entries);
    let sorted = sort_by_name(entries);
    let total = sorted.len();
    Inventory {
        os: owned("windows"),
        note: owned(
            "Installed programs from the Uninstall registry keys (Add/Remove Programs): HKLM 64- and 32-bit, and HKCU per-user installs.",
        ),
        total,
        entries: sorted,
    }
}

/// Windows records `InstallLocation` directly, so no package is ever asked for
/// a representative file: there is none.
pub fn package_path(source: &str, name: &str) -> (r: Option<String>)
    ensures
        r is None,
{
    None
}

/// A Windows listing never shows the same (name, version, scope) twice, even
/// when a product is registered in both machine-wide views.
pub proof fn lemma_windows_listing_unique(scan: WindowsScan, r: Seq<EntryView>)
    requires
        sorted_by_name(dedup_spec(windows_collected(scan)), r),
    ensures
        forall|i: int, j: int| 0 <= i < j < r.len() ==> dedup_key(#[trigger] r[i]) != dedup_key(#[trigger] r[j]),
{
    let d = dedup_spec(windows_collected(scan));
    lemma_dedup_unique(windows_collected(scan));
    let perm = choose|perm: Seq<int>| is_stable_order(perm, keys_of(d)) && r == perm.map_values(|k: int| d[k]);
    assert forall|i: int, j: int| 0 <= i < j < r.len() implies dedup_key(#[trigger] r[i]) != dedup_key(#[trigger] r[j]) by {
        assert(goes_before(keys_of(d), perm[i], perm[j]));
        lemma_goes_before_irreflexive(keys_of(d), perm[i]);
        assert(perm[i] != perm[j]);
        assert(r[i] == d[perm[i]] && r[j] == d[perm[j]]);
        if perm[i] < perm[j] {
            assert(dedup_key(d[perm[i]]) != dedup_key(d[perm[j]]));
        } else {
            assert(dedup_key(d[perm[j]]) != dedup_key(d[perm[i]]));
        }
    }
}


/// Whether `e` is the record of a program listed in Add/Remove Programs by one
/// of the scan's views: a machine view in the system's scope, the user's view
/// in the user's.
pub open spec fn read_from(scan: WindowsScan, e: EntryView) -> bool {
    ||| exists|k: UninstallKey|
        is_listed_program(k) && (scan.machine@.contains(k) || scan.machine_wow@.contains(k))
            && #[trigger] uninstall_item(k, "system"@) == Some(e)
    ||| exists|k: UninstallKey|
        is_listed_program(k) && scan.user@.contains(k) && #[trigger] uninstall_item(k, "user"@) == Some(e)
}

/// Every entry of a Windows listing is a program the user sees in Add/Remove
/// Programs (OS components, updates and patches are left out), read from one
/// of the three views, and so in one of the schema's two scopes.
pub proof fn lemma_windows_lists_only_programs(scan: WindowsScan, r: Seq<EntryView>)
    requires
        sorted_by_name(dedup_spec(windows_collected(scan)), r),
    ensures
        forall|i: int| 0 <= i < r.len() ==> read_from(scan, #[trigger] r[i]) && in_schema_scope(r[i]),
{
    let c = windows_collected(scan);
    let d = dedup_spec(c);
    lemma_sorted_is_permutation(d, r);
    lemma_dedup_keeps_given_rows(c);
    let a = uninstall_all(scan.machine@, "system"@);
    let b = uninstall_all(scan.machine_wow@, "system"@);
    let u = uninstall_all(scan.user@, "user"@);
    assert forall|i: int| 0 <= i < r.len() implies read_from(scan, #[trigger] r[i]) && in_schema_scope(r[i]) by {
        let e = r[i];
        assert(d.contains(e));
        let m = choose|m: int| 0 <= m < d.len() && d[m] == e;
        assert(c.contains(d[m]));
        let n = choose|n: int| 0 <= n < c.len() && c[n] == e;
        if n < a.len() {
            assert(c[n] == a[n]);
            assert(a.contains(e));
            lemma_uninstall_all_from_keys(scan.machine@, "system"@, e);
            let k = choose|k: UninstallKey| #[trigger] scan.machine@.contains(k) && is_listed_program(k)
                && uninstall_item(k, "system"@) == Some(e);
            assert(uninstall_item(k, "system"@) == Some(e));
        } else if n < a.len() + b.len() {
            assert(c[n] == b[n - a.len()]);
            assert(b.contains(e));
            lemma_uninstall_all_from_keys(scan.machine_wow@, "system"@, e);
            let k = choose|k: UninstallKey| #[trigger] scan.machine_wow@.contains(k) && is_listed_program(k)
                && uninstall_item(k, "system"@) == Some(e);
            assert(uninstall_item(k, "system"@) == Some(e));
        } else {
            assert(c[n] == u[n - a.len() - b.len()]);
            assert(u.contains(e));
            lemma_uninstall_all_from_keys(scan.user@, "user"@, e);
            let k = choose|k: UninstallKey| #[trigger] scan.user@.contains(k) && is_listed_program(k)
                && uninstall_item(k, "user"@) == Some(e);
            assert(uninstall_item(k, "user"@) == Some(e));
        }
    }
}

} // verus!
