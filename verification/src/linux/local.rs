//! What is installed outside any package manager: user executables in
//! `~/.local/bin`, and vendor trees under `/opt`.

use vstd::prelude::*;

use crate::entry::{entry, entry_of, entry_views, lemma_entry_views_push, Entry, EntryView};
use crate::text::{copy_string, owned, push_str};

verus! {

/// Where vendor install trees live.
pub const OPT_DIR: &'static str = "/opt";

/// The directory holding user-installed executables for a user whose home is
/// `home`.
pub fn local_bin_dir(home: &str) -> (r: String)
    ensures
        r@ == home@ + "/.local/bin"@,
{
    let mut r = owned(home);
    push_str(&mut r, "/.local/bin");
    r
}

/// One item of a directory listing: its file name, its full path, and what its
/// metadata said (following links): whether it is a regular file, whether it
/// is a directory, and its permission bits. An item whose metadata could not
/// be read is neither a file nor a directory and has no bits.
#[derive(Clone, Debug, PartialEq, Eq)]
pub struct DirItem {
    pub name: String,
    pub location: String,
    pub is_file: bool,
    pub is_dir: bool,
    pub mode: u32,
}

/// A regular file with any execute bit set.
pub open spec fn executable(is_file: bool, mode: u32) -> bool {
    is_file && (mode & 0o111u32) != 0
}

/// Whether a path whose metadata says `is_file` and `mode` is an executable:
/// a regular file with any execute bit (pip, pipx and cargo leave symlinks in
/// `~/.local/bin`, which count by their target).
pub fn is_executable(is_file: bool, mode: u32) -> (r: bool)
    ensures
        r == executable(is_file, mode),
{
    is_file && (mode & 0o111u32) != 0
}

/// The record a `~/.local/bin` item yields: one per executable, in the user's scope.
pub open spec fn local_bin_item(d: DirItem) -> Option<EntryView> {
    if executable(d.is_file, d.mode) {
        Some(entry_of("local-bin"@, d.name@, Seq::empty(), Seq::empty(), d.location@, "user"@))
    } else {
        None
    }
}

pub open spec fn local_bin_entries(items: Seq<DirItem>) -> Seq<EntryView> {
    items.filter_map(|d: DirItem| local_bin_item(d))
}

/// Adds a `local-bin` entry for each executable in `~/.local/bin`.
pub fn collect_local_bin(out: &mut Vec<Entry>, items: &[DirItem])
    ensures
        entry_views(final(out)@) == entry_views(old(out)@) + local_bin_entries(items@),
{
    let ghost start = entry_views(out@);
    let mut i: usize = 0;
    while i < items.len()
        invariant
            i <= items.len(),
            entry_views(out@) == start + local_bin_entries(items@.take(i as int)),
        decreases items.len() - i,
    {
        proof {
            assert(items@.take(i + 1).drop_last() =~= items@.take(i as int));
            assert(items@.take(i + 1).last() == items@[i as int]);
        }
        let d = &items[i];
        if is_executable(d.is_file, d.mode) {
            let e = entry(
                "local-bin",
                copy_string(&d.name),
                String::new(),
                String::new(),
                copy_string(&d.location),
                "user",
            );
            proof {
                lemma_entry_views_push(out@, e);
            }
            out.push(e);
            assert(entry_views(out@) =~= start + local_bin_entries(items@.take(i + 1)));
        }
        i += 1;
    }
    assert(items@.take(items.len() as int) =~= items@);
}

/// The record an `/opt` item yields: one per directory, in the system's scope.
pub open spec fn opt_item(d: DirItem) -> Option<EntryView> {
    if d.is_dir {
        Some(entry_of("opt"@, d.name@, Seq::empty(), Seq::empty(), d.location@, "system"@))
    } else {
        None
    }
}

pub open spec fn opt_entries(items: Seq<DirItem>) -> Seq<EntryView> {
    items.filter_map(|d: DirItem| opt_item(d))
}

/// Adds an `opt` entry for each directory under `/opt`.
pub fn collect_opt(out: &mut Vec<Entry>, items: &[DirItem])
    ensures
        entry_views(final(out)@) == entry_views(old(out)@) + opt_entries(items@),
{
    let ghost start = entry_views(out@);
    let mut i: usize = 0;
    while i < items.len()
        invariant
            i <= items.len(),
            entry_views(out@) == start + opt_entries(items@.take(i as int)),
        decreases items.len() - i,
    {
        proof {
            assert(items@.take(i + 1).drop_last() =~= items@.take(i as int));
            assert(items@.take(i + 1).last() == items@[i as int]);
        }
        let d = &items[i];
        if d.is_dir {
            let e = entry(
                "opt",
                copy_string(&d.name),
                String::new(),
                String::new(),
                copy_string(&d.location),
                "system",
            );
            proof {
                lemma_entry_views_push(out@, e);
            }
            out.push(e);
            assert(entry_views(out@) =~= start + opt_entries(items@.take(i + 1)));
        }
        i += 1;
    }
    assert(items@.take(items.len() as int) =~= items@);
}


/// A regular file is an executable exactly when any of its owner, group or
/// other execute bits is set; nothing else is.
pub proof fn lemma_execute_bits(is_file: bool, mode: u32)
    ensures
        executable(is_file, mode) <==> (is_file && ((mode & 0o100u32) != 0 || (mode & 0o010u32) != 0 || (mode
            & 0o001u32) != 0)),
{
    assert(((mode & 0o111u32) != 0) <==> ((mode & 0o100u32) != 0 || (mode & 0o010u32) != 0 || (mode & 0o001u32)
        != 0)) by (bit_vector);
}

/// What `~/.local/bin` lists: each entry is an executable item found there,
/// under its own name and path, in the user's scope.
pub proof fn lemma_local_bin_lists_executables(items: Seq<DirItem>, e: EntryView)
    requires
        local_bin_entries(items).contains(e),
    ensures
        exists|d: DirItem|
            #[trigger] items.contains(d) && executable(d.is_file, d.mode) && e == (EntryView {
                source: "local-bin"@,
                name: d.name@,
                version: Seq::empty(),
                publisher: Seq::empty(),
                location: d.location@,
                scope: "user"@,
            }),
{
    items.lemma_filter_map_contains(|d: DirItem| local_bin_item(d), e);
}

/// What `/opt` lists: each entry is a directory found there, under its own
/// name and path, in the system's scope.
pub proof fn lemma_opt_lists_directories(items: Seq<DirItem>, e: EntryView)
    requires
        opt_entries(items).contains(e),
    ensures
        exists|d: DirItem|
            #[trigger] items.contains(d) && d.is_dir && e == (EntryView {
                source: "opt"@,
                name: d.name@,
                version: Seq::empty(),
                publisher: Seq::empty(),
                location: d.location@,
                scope: "system"@,
            }),
{
    items.lemma_filter_map_contains(|d: DirItem| opt_item(d), e);
}

} // verus!
