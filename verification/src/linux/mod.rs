//! What is installed on a Linux machine. Several sources are read so that
//! both system packages and user-local installs are covered:
//!
//! - `dpkg` / `rpm`: system package managers;
//! - `flatpak` / `snap`: universal packages (user or system);
//! - XDG desktop entries in the system directories and
//!   `~/.local/share/applications`;
//! - `~/.local/bin`: user-installed executables;
//! - `/opt`: vendor install trees.
//!
//! ```text
//!   packages  dpkg, rpm, flatpak, snap
//!   desktop   XDG .desktop entries, system and user
//!   local     ~/.local/bin and /opt
//! ```

pub mod desktop;
pub mod local;
pub mod packages;

use vstd::prelude::*;

use crate::entry::{entry_views, in_schema_scope, lemma_filter_map_all, Entry, EntryView};
use crate::inventory::{lemma_sorted_is_permutation, sort_by_name, sorted_by_name, Inventory};
use crate::text::{
    char_views, chars_of, copy_string, has_prefix, lines, owned, split_by, split_chars,
    split_lines, string_of, string_views, Sep,
};
use desktop::{collect_desktop, desktop_scopes, found_entries, lemma_found_entries_scope, FoundFile};
use local::{collect_local_bin, collect_opt, local_bin_entries, local_bin_item, opt_entries, opt_item, DirItem};
use packages::{
    collect_dpkg, collect_flatpak, collect_rpm, collect_snap, dpkg_entries, dpkg_line,
    flatpak_entries, flatpak_line, rpm_entries, rpm_line, snap_entries, snap_line,
};

verus! {

/// What was read from a Linux machine: each package manager's listing (none
/// when the manager is absent or failed); for each directory of
/// `desktop_dirs`, in order, the files found in it (nothing for a directory
/// that could not be read); and the items of `~/.local/bin` and `/opt`.
#[derive(Clone, Debug, PartialEq, Eq)]
pub struct LinuxScan {
    pub dpkg: Option<String>,
    pub rpm: Option<String>,
    pub flatpak: Option<String>,
    pub snap: Option<String>,
    pub desktop: Vec<Vec<FoundFile>>,
    pub local_bin: Vec<DirItem>,
    pub opt: Vec<DirItem>,
}

/// The text a listing printed; nothing when there was no listing.
pub open spec fn printed(l: Option<String>) -> Seq<char> {
    match l {
        Some(s) => s@,
        None => Seq::empty(),
    }
}

/// Every record the sources yield, source by source, each in its own order.
pub open spec fn linux_collected(scan: LinuxScan) -> Seq<EntryView> {
    dpkg_entries(printed(scan.dpkg)) + rpm_entries(printed(scan.rpm)) + flatpak_entries(
        printed(scan.flatpak),
    ) + snap_entries(printed(scan.snap)) + found_entries(desktop_scopes(), scan.desktop@) + local_bin_entries(
        scan.local_bin@,
    ) + opt_entries(scan.opt@)
}

/// The note a Linux listing carries.
pub open spec fn linux_note() -> Seq<char> {
    "Installed programs from system packages (dpkg/rpm), universal packages (flatpak/snap), XDG desktop entries (system and ~/.local/share/applications), user executables in ~/.local/bin, and /opt install trees."@
}

fn listing_text(l: &Option<String>) -> (r: String)
    ensures
        r@ == printed(*l),
{
    match l {
        Some(s) => copy_string(s),
        None => String::new(),
    }
}

/// The installed programs a scan found: every source's records, sorted by
/// lowercased name (equal names keep their order), with their count.
pub fn list_programs(scan: &LinuxScan) -> (r: Inventory)
    ensures
        r.os@ == "linux"@,
        r.note@ == linux_note(),
        r.total == r.entries.len(),
        sorted_by_name(linux_collected(*scan), entry_views(r.entries@)),
{
    let mut entries: Vec<Entry> = Vec::new();
    let dpkg = listing_text(&scan.dpkg);
    collect_dpkg(&mut entries, dpkg.as_str());
    let rpm = listing_text(&scan.rpm);
    collect_rpm(&mut entries, rpm.as_str());
    let flatpak = listing_text(&scan.flatpak);
    collect_flatpak(&mut entries, flatpak.as_str());
    let snap = listing_text(&scan.snap);
    collect_snap(&mut entries, snap.as_str());
    collect_desktop(&mut entries, &scan.desktop);
    collect_local_bin(&mut entries, scan.local_bin.as_slice());
    collect_opt(&mut entries, scan.opt.as_slice());
    assert(entry_views(entries@) =~= linux_collected(*scan));
    let sorted = sort_by_name(entries);
    let total = sorted.len();
    Inventory {
        os: owned("linux"),
        note: owned(
            "Installed programs from system packages (dpkg/rpm), universal packages (flatpak/snap), XDG desktop entries (system and ~/.local/share/applications), user executables in ~/.local/bin, and /opt install trees.",
        ),
        total,
        entries: sorted,
    }
}

/// Every entry of a Linux listing is in one of the schema's two scopes:
/// packages are the system's (a flatpak the user's when installed per user),
/// `~/.local/bin` is the user's, `/opt` the system's, and a desktop entry has
/// the scope of the directory it was found in.
pub proof fn lemma_linux_scopes(scan: LinuxScan, r: Seq<EntryView>)
    requires
        sorted_by_name(linux_collected(scan), r),
    ensures
        forall|i: int| 0 <= i < r.len() ==> in_schema_scope(#[trigger] r[i]),
{
    let p = |e: EntryView| in_schema_scope(e);
    lemma_filter_map_all(lines(printed(scan.dpkg)), |l: Seq<char>| dpkg_line(l), p);
    lemma_filter_map_all(lines(printed(scan.rpm)), |l: Seq<char>| rpm_line(l), p);
    lemma_filter_map_all(lines(printed(scan.flatpak)), |l: Seq<char>| flatpak_line(l), p);
    let sl = lines(printed(scan.snap));
    if sl.len() > 0 {
        lemma_filter_map_all(sl.drop_first(), |l: Seq<char>| snap_line(l), p);
    }
    reveal_strlit("system");
    reveal_strlit("user");
    assert forall|k: int| 0 <= k < desktop_scopes().len() implies #[trigger] desktop_scopes()[k] == "system"@
        || desktop_scopes()[k] == "user"@ by {}
    lemma_found_entries_scope(desktop_scopes(), scan.desktop@);
    lemma_filter_map_all(scan.local_bin@, |d: DirItem| local_bin_item(d), p);
    lemma_filter_map_all(scan.opt@, |d: DirItem| opt_item(d), p);
    let c = linux_collected(scan);
    assert forall|k: int| 0 <= k < c.len() implies in_schema_scope(#[trigger] c[k]) by {}
    lemma_sorted_is_permutation(c, r);
    assert forall|i: int| 0 <= i < r.len() implies in_schema_scope(#[trigger] r[i]) by {
        assert(c.contains(r[i]));
    }
}

// ------------------------------------------------------------------------
// A representative file of a package
// ------------------------------------------------------------------------

/// The command that lists a package's files, for a source that is a package
/// manager: `rpm -ql NAME` or `dpkg -L NAME`.
pub open spec fn package_argv(source: Seq<char>, name: Seq<char>) -> Option<Seq<Seq<char>>> {
    if source == "rpm"@ {
        Some(seq!["rpm"@, "-ql"@, name])
    } else if source == "dpkg"@ {
        Some(seq!["dpkg"@, "-L"@, name])
    } else {
        None
    }
}

/// The command line (program first) that lists the files of package `name`
/// from `source`; none for a source that is not `rpm` or `dpkg`.
pub fn package_command(source: &str, name: &str) -> (r: Option<Vec<String>>)
    ensures
        match package_argv(source@, name@) {
            None => r is None,
            Some(argv) => r matches Some(v) && string_views(v@) == argv,
        },
{
    let program = if crate::text::eq_str(source, "rpm") {
        "rpm"
    } else if crate::text::eq_str(source, "dpkg") {
        "dpkg"
    } else {
        return None;
    };
    let flag = if crate::text::eq_str(source, "rpm") {
        "-ql"
    } else {
        "-L"
    };
    let mut v: Vec<String> = Vec::new();
    v.push(owned(program));
    v.push(owned(flag));
    v.push(owned(name));
    assert(string_views(v@) =~= package_argv(source@, name@).unwrap());
    Some(v)
}

/// Whether `p` lies under a standard bin directory.
pub open spec fn in_bin_dir(p: Seq<char>) -> bool {
    ||| has_prefix(p, "/usr/bin/"@)
    ||| has_prefix(p, "/bin/"@)
    ||| has_prefix(p, "/usr/sbin/"@)
    ||| has_prefix(p, "/sbin/"@)
    ||| has_prefix(p, "/usr/local/bin/"@)
}

/// The last `/`-separated component of `p` (what `rsplit('/').next()` gives).
pub open spec fn base_name(p: Seq<char>) -> Seq<char> {
    split_by(p, Sep::Char('/')).last()
}

/// Whether `p`, a regular file or not as `is_file` says, is an executable
/// under a standard bin directory.
pub open spec fn is_bin_spec(p: Seq<char>, is_file: bool) -> bool {
    in_bin_dir(p) && is_file
}

/// Whether `p` is an executable under a standard bin directory, given whether
/// it is a regular file.
pub fn is_bin(p: &[char], is_file: bool) -> (r: bool)
    ensures
        r == is_bin_spec(p@, is_file),
{
    if !is_file {
        return false;
    }
    crate::text::strip_prefix(p, "/usr/bin/").is_some() || crate::text::strip_prefix(p, "/bin/").is_some()
        || crate::text::strip_prefix(p, "/usr/sbin/").is_some() || crate::text::strip_prefix(
        p,
        "/sbin/",
    ).is_some() || crate::text::strip_prefix(p, "/usr/local/bin/").is_some()
}

/// The first file that is a binary named like the package.
pub open spec fn first_named_bin(ls: Seq<Seq<char>>, files: Seq<bool>, name: Seq<char>) -> Option<
    Seq<char>,
>
    decreases ls.len(),
{
    if ls.len() == 0 || files.len() == 0 {
        None
    } else if is_bin_spec(ls[0], files[0]) && base_name(ls[0]) == name {
        Some(ls[0])
    } else {
        first_named_bin(ls.drop_first(), files.drop_first(), name)
    }
}

/// The first file that is a binary.
pub open spec fn first_bin(ls: Seq<Seq<char>>, files: Seq<bool>) -> Option<Seq<char>>
    decreases ls.len(),
{
    if ls.len() == 0 || files.len() == 0 {
        None
    } else if is_bin_spec(ls[0], files[0]) {
        Some(ls[0])
    } else {
        first_bin(ls.drop_first(), files.drop_first())
    }
}

/// The first path that is a regular file.
pub open spec fn first_file(ls: Seq<Seq<char>>, files: Seq<bool>) -> Option<Seq<char>>
    decreases ls.len(),
{
    if ls.len() == 0 || files.len() == 0 {
        None
    } else if files[0] {
        Some(ls[0])
    } else {
        first_file(ls.drop_first(), files.drop_first())
    }
}

/// The representative file of a package whose file list is `ls` (with
/// `files[i]` saying whether `ls[i]` is a regular file): a binary named like
/// the package, else any binary, else any file.
pub open spec fn package_choice(ls: Seq<Seq<char>>, files: Seq<bool>, name: Seq<char>) -> Option<
    Seq<char>,
> {
    if first_named_bin(ls, files, name) is Some {
        first_named_bin(ls, files, name)
    } else if first_bin(ls, files) is Some {
        first_bin(ls, files)
    } else {
        first_file(ls, files)
    }
}

/// Picks the representative file of package `name` from its file list `paths`,
/// where `is_file[i]` says whether `paths[i]` is a regular file: its main
/// executable if it has one, else its first binary, else its first file.
pub fn pick_package_file(paths: &Vec<String>, is_file: &Vec<bool>, name: &str) -> (r: Option<String>)
    requires
        paths.len() == is_file.len(),
    ensures
        match package_choice(string_views(paths@), is_file@, name@) {
            None => r is None,
            Some(p) => r matches Some(x) && x@ == p,
        },
{
    let ghost ls = string_views(paths@);
    let ghost fs = is_file@;
    let n = paths.len();
    let name_chars = chars_of(name);
    assert(ls.skip(0) =~= ls);
    assert(fs.skip(0) =~= fs);
    // A binary named like the package.
    let mut i: usize = 0;
    while i < n
        invariant
            n == paths.len() == is_file.len(),
            ls == string_views(paths@),
            fs == is_file@,
            name_chars@ == name@,
            i <= n,
            first_named_bin(ls, fs, name@) == first_named_bin(ls.skip(i as int), fs.skip(i as int), name@),
        decreases n - i,
    {
        let p = chars_of(paths[i].as_str());
        assert(ls.skip(i as int)[0] == p@);
        assert(fs.skip(i as int)[0] == is_file[i as int]);
        assert(ls.skip(i as int).drop_first() =~= ls.skip(i + 1));
        assert(fs.skip(i as int).drop_first() =~= fs.skip(i + 1));
        if is_bin(p.as_slice(), is_file[i]) {
            let parts = split_chars(p.as_slice(), &Sep::Char('/'));
            proof {
                crate::text::lemma_split_by_nonempty(p@, Sep::Char('/'));
            }
            let last = &parts[parts.len() - 1];
            assert(char_views(parts@).last() == last@);
            if crate::text::eq_chars(last.as_slice(), name_chars.as_slice()) {
                return Some(copy_string(&paths[i]));
            }
        }
        i += 1;
    }
    assert(first_named_bin(ls.skip(n as int), fs.skip(n as int), name@) is None);
    // Any binary.
    let mut i: usize = 0;
    assert(ls.skip(0) =~= ls);
    assert(fs.skip(0) =~= fs);
    while i < n
        invariant
            n == paths.len() == is_file.len(),
            ls == string_views(paths@),
            fs == is_file@,
            i <= n,
            first_named_bin(ls, fs, name@) is None,
            first_bin(ls, fs) == first_bin(ls.skip(i as int), fs.skip(i as int)),
        decreases n - i,
    {
        let p = chars_of(paths[i].as_str());
        assert(ls.skip(i as int)[0] == p@);
        assert(fs.skip(i as int)[0] == is_file[i as int]);
        assert(ls.skip(i as int).drop_first() =~= ls.skip(i + 1));
        assert(fs.skip(i as int).drop_first() =~= fs.skip(i + 1));
        if is_bin(p.as_slice(), is_file[i]) {
            return Some(copy_string(&paths[i]));
        }
        i += 1;
    }
    assert(first_bin(ls.skip(n as int), fs.skip(n as int)) is None);
    // Any file.
    let mut i: usize = 0;
    assert(ls.skip(0) =~= ls);
    assert(fs.skip(0) =~= fs);
    while i < n
        invariant
            n == paths.len() == is_file.len(),
            ls == string_views(paths@),
            fs == is_file@,
            i <= n,
            first_named_bin(ls, fs, name@) is None,
            first_bin(ls, fs) is None,
            first_file(ls, fs) == first_file(ls.skip(i as int), fs.skip(i as int)),
        decreases n - i,
    {
        assert(ls.skip(i as int)[0] == paths@[i as int]@);
        assert(fs.skip(i as int)[0] == is_file[i as int]);
        assert(ls.skip(i as int).drop_first() =~= ls.skip(i + 1));
        assert(fs.skip(i as int).drop_first() =~= fs.skip(i + 1));
        if is_file[i] {
            return Some(copy_string(&paths[i]));
        }
        i += 1;
    }
    assert(first_file(ls.skip(n as int), fs.skip(n as int)) is None);
    None
}

/// The paths a package manager's file listing names: its lines.
pub fn listing_lines(listing: &str) -> (r: Vec<String>)
    ensures
        string_views(r@) == lines(listing@),
{
    let text = chars_of(listing);
    let ls = split_lines(text.as_slice());
    let mut paths: Vec<String> = Vec::new();
    let mut i: usize = 0;
    while i < ls.len()
        invariant
            i <= ls.len(),
            paths.len() == i,
            forall|k: int| 0 <= k < i ==> #[trigger] paths@[k]@ == ls@[k]@,
        decreases ls.len() - i,
    {
        paths.push(string_of(ls[i].as_slice()));
        i += 1;
    }
    assert(string_views(paths@) =~= char_views(ls@));
    paths
}

/// The representative file of package `name`, from the file list `listing` its
/// manager printed (one path per line), given what the disk said of each
/// listed path: `is_file[i]` is whether line `i` is a regular file.
pub fn package_file(listing: &str, name: &str, is_file: &Vec<bool>) -> (r: Option<String>)
    requires
        is_file.len() == lines(listing@).len(),
    ensures
        match package_choice(lines(listing@), is_file@, name@) {
            None => r is None,
            Some(p) => r matches Some(x) && x@ == p,
        },
{
    let paths = listing_lines(listing);
    pick_package_file(&paths, is_file, name)
}

proof fn lemma_first_named_bin_listed(ls: Seq<Seq<char>>, files: Seq<bool>, name: Seq<char>)
    ensures
        first_named_bin(ls, files, name) matches Some(p) ==> ls.contains(p),
    decreases ls.len(),
{
    if ls.len() > 0 && files.len() > 0 {
        lemma_first_named_bin_listed(ls.drop_first(), files.drop_first(), name);
        if let Some(p) = first_named_bin(ls.drop_first(), files.drop_first(), name) {
            if ls.drop_first().contains(p) {
                let k = choose|k: int| 0 <= k < ls.drop_first().len() && ls.drop_first()[k] == p;
                assert(ls[k + 1] == p);
            }
        }
        assert(ls[0] == ls[0]);
    }
}

proof fn lemma_first_bin_listed(ls: Seq<Seq<char>>, files: Seq<bool>)
    ensures
        first_bin(ls, files) matches Some(p) ==> ls.contains(p),
    decreases ls.len(),
{
    if ls.len() > 0 && files.len() > 0 {
        lemma_first_bin_listed(ls.drop_first(), files.drop_first());
        if let Some(p) = first_bin(ls.drop_first(), files.drop_first()) {
            if ls.drop_first().contains(p) {
                let k = choose|k: int| 0 <= k < ls.drop_first().len() && ls.drop_first()[k] == p;
                assert(ls[k + 1] == p);
            }
        }
        assert(ls[0] == ls[0]);
    }
}

proof fn lemma_first_file_listed(ls: Seq<Seq<char>>, files: Seq<bool>)
    ensures
        first_file(ls, files) matches Some(p) ==> ls.contains(p),
    decreases ls.len(),
{
    if ls.len() > 0 && files.len() > 0 {
        lemma_first_file_listed(ls.drop_first(), files.drop_first());
        if let Some(p) = first_file(ls.drop_first(), files.drop_first()) {
            if ls.drop_first().contains(p) {
                let k = choose|k: int| 0 <= k < ls.drop_first().len() && ls.drop_first()[k] == p;
                assert(ls[k + 1] == p);
            }
        }
        assert(ls[0] == ls[0]);
    }
}

/// The file chosen for a package is always one of the paths its manager listed.
pub proof fn lemma_package_choice_listed(ls: Seq<Seq<char>>, files: Seq<bool>, name: Seq<char>)
    ensures
        package_choice(ls, files, name) matches Some(p) ==> ls.contains(p),
{
    lemma_first_named_bin_listed(ls, files, name);
    lemma_first_bin_listed(ls, files);
    lemma_first_file_listed(ls, files);
}

/// A representative path for package `name` from `source`, given what its
/// file listing (`package_command(source, name)`) printed (none when that
/// command could not be run or failed) and what the disk said of each listed
/// path (`is_file[i]`: whether line `i` of the listing is a regular file):
/// nothing for a source that is no package manager or a listing that failed;
/// otherwise the file `package_choice` picks, always a line of the listing.
pub fn package_path(source: &str, name: &str, listing: &Option<String>, is_file: &Vec<bool>) -> (r: Option<
    String,
>)
    requires
        listing is Some ==> is_file.len() == lines(printed(*listing)).len(),
    ensures
        package_argv(source@, name@) is None ==> r is None,
        listing is None ==> r is None,
        package_argv(source@, name@) is Some && listing is Some ==> match package_choice(
            lines(printed(*listing)),
            is_file@,
            name@,
        ) {
            None => r is None,
            Some(p) => r matches Some(x) && x@ == p,
        },
        r matches Some(x) ==> lines(printed(*listing)).contains(x@),
{
    match package_command(source, name) {
        None => None,
        Some(_) => match listing {
            None => None,
            Some(l) => {
                let r = package_file(l.as_str(), name, is_file);
                proof {
                    lemma_package_choice_listed(lines(l@), is_file@, name@);
                }
                r
            },
        },
    }
}

} // verus!
