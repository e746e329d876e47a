//! XDG desktop entries: the system directories and
//! `~/.local/share/applications`, where user-installed apps and AppImages
//! register themselves.

use vstd::prelude::*;

use crate::entry::{entry, entry_of, entry_views, in_schema_scope, lemma_entry_views_push, Entry, EntryView};
use crate::text::{
    char_views, chars_of, eq_ascii_nocase, eq_ignore_ascii_case, eq_lit, has_prefix, is_ws, join,
    lemma_lines_of, lemma_trim_plain, lines, owned, plain_line, push_str, split_lines, string_of, trim,
    trim_chars,
};

verus! {

/// A directory that desktop entries are read from, and the scope its entries get.
#[derive(Clone, Debug, PartialEq, Eq)]
pub struct SourceDir {
    pub path: String,
    pub scope: String,
}

/// The scopes of the desktop entry directories, in the order `desktop_dirs`
/// lists them.
pub open spec fn desktop_scopes() -> Seq<Seq<char>> {
    seq!["system"@, "system"@, "user"@]
}

/// The directories holding desktop entries for a user whose home is `home`:
/// the two system directories, then the user's own.
pub fn desktop_dirs(home: &str) -> (r: Vec<SourceDir>)
    ensures
        r.len() == 3,
        forall|i: int| 0 <= i < 3 ==> (#[trigger] r[i]).scope@ == desktop_scopes()[i],
        r[0].path@ == "/usr/share/applications"@ && r[0].scope@ == "system"@,
        r[1].path@ == "/usr/local/share/applications"@ && r[1].scope@ == "system"@,
        r[2].path@ == home@ + "/.local/share/applications"@ && r[2].scope@ == "user"@,
{
    let mut user = owned(home);
    push_str(&mut user, "/.local/share/applications");
    let mut r: Vec<SourceDir> = Vec::new();
    r.push(SourceDir { path: owned("/usr/share/applications"), scope: owned("system") });
    r.push(SourceDir { path: owned("/usr/local/share/applications"), scope: owned("system") });
    r.push(SourceDir { path: user, scope: owned("user") });
    r
}

/// What is known after reading some lines of a desktop entry: the first
/// `Name=` seen in the `[Desktop Entry]` group, whether its `Type` says it is an
/// application, whether the reader is inside that group, and whether the entry
/// asked to be hidden.
pub struct DesktopState {
    pub name: Option<Seq<char>>,
    pub is_app: bool,
    pub in_entry: bool,
    pub hidden: bool,
}

pub open spec fn desktop_start() -> DesktopState {
    DesktopState { name: None, is_app: true, in_entry: false, hidden: false }
}

/// One line of a desktop entry, read in state `st`. A line starting with `[`
/// opens a group; inside `[Desktop Entry]`, `Name=` (the first one only),
/// `Type=`, and `NoDisplay=`/`Hidden=` with a value of `true` in any ASCII case
/// are what count. Once hidden, nothing more is read.
pub open spec fn desktop_step(st: DesktopState, raw: Seq<char>) -> DesktopState {
    let line = trim(raw);
    if st.hidden {
        st
    } else if line.len() > 0 && line[0] == '[' {
        DesktopState {
            name: st.name,
            is_app: st.is_app,
            in_entry: line == "[Desktop Entry]"@,
            hidden: false,
        }
    } else if !st.in_entry {
        st
    } else if has_prefix(line, "Name="@) {
        DesktopState {
            name: if st.name is Some {
                st.name
            } else {
                Some(line.skip("Name="@.len() as int))
            },
            is_app: st.is_app,
            in_entry: true,
            hidden: false,
        }
    } else if has_prefix(line, "Type="@) {
        DesktopState {
            name: st.name,
            is_app: line.skip("Type="@.len() as int) == "Application"@,
            in_entry: true,
            hidden: false,
        }
    } else if has_prefix(line, "NoDisplay="@) {
        DesktopState {
            name: st.name,
            is_app: st.is_app,
            in_entry: true,
            hidden: eq_ascii_nocase(line.skip("NoDisplay="@.len() as int), "true"@),
        }
    } else if has_prefix(line, "Hidden="@) {
        DesktopState {
            name: st.name,
            is_app: st.is_app,
            in_entry: true,
            hidden: eq_ascii_nocase(line.skip("Hidden="@.len() as int), "true"@),
        }
    } else {
        st
    }
}

/// The state after reading the lines `ls` in order.
pub open spec fn desktop_fold(ls: Seq<Seq<char>>) -> DesktopState
    decreases ls.len(),
{
    if ls.len() == 0 {
        desktop_start()
    } else {
        desktop_step(desktop_fold(ls.drop_last()), ls.last())
    }
}

/// The application name a desktop entry shows: none for an entry that is hidden
/// (`NoDisplay=true`, `Hidden=true`), is not of type `Application`, or has no
/// `Name=` in its `[Desktop Entry]` group.
pub open spec fn desktop_name(text: Seq<char>) -> Option<Seq<char>> {
    let st = desktop_fold(lines(text));
    if st.hidden {
        None
    } else if st.is_app {
        st.name
    } else {
        None
    }
}

/// Once hidden, a desktop entry stays hidden whatever follows.
proof fn lemma_hidden_stays(ls: Seq<Seq<char>>, j: int)
    requires
        0 <= j <= ls.len(),
        desktop_fold(ls.take(j)).hidden,
    ensures
        desktop_fold(ls).hidden,
    decreases ls.len() - j,
{
    if j < ls.len() {
        assert(ls.take(j + 1).drop_last() =~= ls.take(j));
        lemma_hidden_stays(ls, j + 1);
    } else {
        assert(ls.take(j) =~= ls);
    }
}

/// Reads a desktop entry's application name. `None` for entries that are not
/// applications (directories, links), that are hidden, or that have no name.
pub fn parse_desktop(text: &str) -> (r: Option<String>)
    ensures
        match desktop_name(text@) {
            None => r is None,
            Some(n) => r matches Some(x) && x@ == n,
        },
{
    let chars = chars_of(text);
    let ls = split_lines(chars.as_slice());
    let ghost lv = char_views(ls@);
    let mut name: Option<Vec<char>> = None;
    let mut is_app = true;
    let mut in_entry = false;
    let mut i: usize = 0;
    while i < ls.len()
        invariant
            i <= ls.len(),
            lv == char_views(ls@),
            lv == lines(text@),
            ({
                let st = desktop_fold(lv.take(i as int));
                &&& !st.hidden
                &&& st.is_app == is_app
                &&& st.in_entry == in_entry
                &&& match st.name {
                    None => name is None,
                    Some(n) => name matches Some(x) && x@ == n,
                }
            }),
        decreases ls.len() - i,
    {
        proof {
            assert(lv.take(i + 1).drop_last() =~= lv.take(i as int));
            assert(lv.take(i + 1).last() == lv[i as int]);
            assert(ls@[i as int]@ == lv[i as int]);
        }
        let line = trim_chars(ls[i].as_slice());
        if line.len() > 0 && line[0] == '[' {
            in_entry = eq_lit(line.as_slice(), "[Desktop Entry]");
        } else if in_entry {
            if let Some(v) = crate::text::strip_prefix(line.as_slice(), "Name=") {
                if name.is_none() {
                    name = Some(v);
                }
            } else if let Some(v) = crate::text::strip_prefix(line.as_slice(), "Type=") {
                is_app = eq_lit(v.as_slice(), "Application");
            } else if let Some(v) = crate::text::strip_prefix(line.as_slice(), "NoDisplay=") {
                if eq_ignore_ascii_case(v.as_slice(), "true") {
                    proof {
                        lemma_hidden_stays(lv, i + 1);
                    }
                    return None;
                }
            } else if let Some(v) = crate::text::strip_prefix(line.as_slice(), "Hidden=") {
                if eq_ignore_ascii_case(v.as_slice(), "true") {
                    proof {
                        lemma_hidden_stays(lv, i + 1);
                    }
                    return None;
                }
            }
        }
        i += 1;
    }
    proof {
        assert(lv.take(ls.len() as int) =~= lv);
    }
    if is_app {
        match name {
            Some(n) => Some(string_of(n.as_slice())),
            None => None,
        }
    } else {
        None
    }
}

/// Whether a file name has the `desktop` extension, as `Path::extension`
/// reads one: what follows the last `.`, unless that `.` starts the name.
pub open spec fn is_desktop_name(name: Seq<char>) -> bool {
    name.len() > 8 && name.skip(name.len() - 8) == ".desktop"@
}

/// Whether a file found in a desktop entry directory is read: its name has
/// the `desktop` extension.
pub fn has_desktop_extension(name: &str) -> (r: bool)
    ensures
        r == is_desktop_name(name@),
{
    let c = chars_of(name);
    let lit = chars_of(".desktop");
    proof {
        reveal_strlit(".desktop");
    }
    let n = c.len();
    if n <= 8 {
        return false;
    }
    let mut i: usize = 0;
    while i < 8
        invariant
            c@ == name@,
            n == c.len(),
            n > 8,
            lit@ == ".desktop"@,
            lit@.len() == 8,
            i <= 8,
            forall|k: int| 0 <= k < i ==> c@[n - 8 + k] == lit@[k],
        decreases 8 - i,
    {
        if c[n - 8 + i] != lit[i] {
            assert(c@.skip(n - 8)[i as int] != ".desktop"@[i as int]);
            return false;
        }
        i += 1;
    }
    assert(c@.skip(n - 8) =~= ".desktop"@);
    true
}

/// A file found in a desktop entry directory: its name, its path, and its
/// text (none when it was not read or could not be).
#[derive(Clone, Debug, PartialEq, Eq)]
pub struct FoundFile {
    pub name: String,
    pub location: String,
    pub text: Option<String>,
}

/// The record a found file yields in a directory of scope `scope`: one when
/// its name has the `desktop` extension, its text was read, and that text
/// names a visible application.
pub open spec fn found_entry(f: FoundFile, scope: Seq<char>) -> Option<EntryView> {
    if is_desktop_name(f.name@) && f.text is Some {
        match desktop_name(f.text->0@) {
            Some(n) => Some(entry_of("xdg-desktop"@, n, Seq::empty(), Seq::empty(), f.location@, scope)),
            None => None,
        }
    } else {
        None
    }
}

/// The records the files of one directory of scope `scope` yield, in order.
pub open spec fn found_in(files: Seq<FoundFile>, scope: Seq<char>) -> Seq<EntryView>
    decreases files.len(),
{
    if files.len() == 0 {
        Seq::empty()
    } else {
        found_in(files.drop_last(), scope) + match found_entry(files.last(), scope) {
            Some(e) => seq![e],
            None => Seq::empty(),
        }
    }
}

/// The files listing `i` holds; none past the listings given.
pub open spec fn listing_at(found: Seq<Vec<FoundFile>>, i: int) -> Seq<FoundFile> {
    if 0 <= i < found.len() {
        found[i]@
    } else {
        Seq::empty()
    }
}

/// The records of the desktop entry directories, directory by directory in the
/// order of `scopes`: listing `i` is what directory `i` held (nothing for a
/// directory that could not be read).
pub open spec fn found_entries(scopes: Seq<Seq<char>>, found: Seq<Vec<FoundFile>>) -> Seq<EntryView>
    decreases scopes.len(),
{
    if scopes.len() == 0 {
        Seq::empty()
    } else {
        found_entries(scopes.drop_last(), found) + found_in(
            listing_at(found, scopes.len() - 1),
            scopes.last(),
        )
    }
}

/// Every record a directory yields has that directory's scope.
pub proof fn lemma_found_in_scope(files: Seq<FoundFile>, scope: Seq<char>)
    ensures
        forall|i: int| 0 <= i < found_in(files, scope).len() ==> (#[trigger] found_in(files, scope)[i]).scope
            == scope,
    decreases files.len(),
{
    if files.len() > 0 {
        let t = files.drop_last();
        lemma_found_in_scope(t, scope);
        let r = found_in(files, scope);
        assert forall|i: int| 0 <= i < r.len() implies (#[trigger] r[i]).scope == scope by {
            if i < found_in(t, scope).len() {
                assert(r[i] == found_in(t, scope)[i]);
            } else {
                assert(found_entry(files.last(), scope) is Some);
            }
        }
    }
}

/// Adds an `xdg-desktop` entry for each file of the desktop entry directories
/// (listing `i` being what directory `i` of `desktop_dirs` held) that has the
/// `desktop` extension, could be read, and names a visible application, with
/// the scope of its directory and located at the file itself.
pub fn collect_desktop(out: &mut Vec<Entry>, found: &Vec<Vec<FoundFile>>)
    ensures
        entry_views(final(out)@) == entry_views(old(out)@) + found_entries(desktop_scopes(), found@),
{
    let ghost start = entry_views(out@);
    let ghost sc = desktop_scopes();
    let mut i: usize = 0;
    while i < 3
        invariant
            i <= 3,
            sc == desktop_scopes(),
            entry_views(out@) == start + found_entries(sc.take(i as int), found@),
        decreases 3 - i,
    {
        let scope = if i < 2 {
            "system"
        } else {
            "user"
        };
        proof {
            reveal_strlit("system");
            reveal_strlit("user");
            assert(sc.take(i + 1).drop_last() =~= sc.take(i as int));
            assert(sc.take(i + 1).last() == sc[i as int]);
        }
        let ghost mid = entry_views(out@);
        let ghost files = listing_at(found@, i as int);
        if i < found.len() {
            let list = &found[i];
            let mut j: usize = 0;
            while j < list.len()
                invariant
                    i < found.len(),
                    list@ == files,
                    scope@ == sc[i as int],
                    j <= list.len(),
                    entry_views(out@) == mid + found_in(files.take(j as int), scope@),
                decreases list.len() - j,
            {
                proof {
                    assert(files.take(j + 1).drop_last() =~= files.take(j as int));
                    assert(files.take(j + 1).last() == files[j as int]);
                }
                let f = &list[j];
                if has_desktop_extension(f.name.as_str()) {
                    match &f.text {
                        Some(t) => match parse_desktop(t.as_str()) {
                            Some(name) => {
                                let e = entry(
                                    "xdg-desktop",
                                    name,
                                    String::new(),
                                    String::new(),
                                    crate::text::copy_string(&f.location),
                                    scope,
                                );
                                proof {
                                    lemma_entry_views_push(out@, e);
                                }
                                out.push(e);
                                assert(entry_views(out@) =~= mid + found_in(files.take(j + 1), scope@));
                            },
                            None => {
                                assert(found_in(files.take(j + 1), scope@) =~= found_in(files.take(j as int), scope@));
                            },
                        },
                        None => {
                            assert(found_in(files.take(j + 1), scope@) =~= found_in(files.take(j as int), scope@));
                        },
                    }
                } else {
                    assert(found_in(files.take(j + 1), scope@) =~= found_in(files.take(j as int), scope@));
                }
                j += 1;
            }
            assert(files.take(list.len() as int) =~= files);
        } else {
            assert(files =~= Seq::<FoundFile>::empty());
        }
        assert(entry_views(out@) =~= start + found_entries(sc.take(i + 1), found@));
        i += 1;
    }
    assert(sc.take(3) =~= sc);
}


/// Every record of the desktop entry directories has a scope among theirs,
/// so one of the schema's two when theirs are.
pub proof fn lemma_found_entries_scope(scopes: Seq<Seq<char>>, found: Seq<Vec<FoundFile>>)
    requires
        forall|k: int| 0 <= k < scopes.len() ==> #[trigger] scopes[k] == "system"@ || scopes[k] == "user"@,
    ensures
        forall|i: int| 0 <= i < found_entries(scopes, found).len() ==> in_schema_scope(
            #[trigger] found_entries(scopes, found)[i],
        ),
    decreases scopes.len(),
{
    if scopes.len() > 0 {
        let t = scopes.drop_last();
        assert forall|k: int| 0 <= k < t.len() implies #[trigger] t[k] == "system"@ || t[k] == "user"@ by {
            assert(t[k] == scopes[k]);
        }
        lemma_found_entries_scope(t, found);
        let files = listing_at(found, scopes.len() - 1);
        lemma_found_in_scope(files, scopes.last());
        let r = found_entries(scopes, found);
        let p = found_entries(t, found);
        assert(scopes[scopes.len() - 1] == scopes.last());
        assert forall|i: int| 0 <= i < r.len() implies in_schema_scope(#[trigger] r[i]) by {
            if i < p.len() {
                assert(r[i] == p[i]);
            } else {
                assert(r[i] == found_in(files, scopes.last())[i - p.len()]);
            }
        }
    }
}


proof fn lemma_three_lines(a: Seq<char>, b: Seq<char>, c: Seq<char>)
    requires
        plain_line(a),
        plain_line(b),
        plain_line(c),
    ensures
        lines(a + seq!['\n'] + b + seq!['\n'] + c + seq!['\n']) == seq![a, b, c],
{
    let nl = seq!['\n'];
    let ls = seq![a, b, c];
    let parts = ls.push(Seq::<char>::empty());
    assert(parts.drop_last() =~= ls);
    assert(ls.drop_last() =~= seq![a, b]);
    assert(seq![a, b].drop_last() =~= seq![a]);
    assert(join(seq![a], nl) == a);
    assert(join(seq![a, b], nl) == a + nl + b);
    assert(join(ls, nl) == a + nl + b + nl + c);
    assert(join(parts, nl) =~= a + nl + b + nl + c + nl);
    assert forall|k: int| 0 <= k < ls.len() implies plain_line(#[trigger] ls[k]) by {}
    lemma_lines_of(ls);
}

proof fn lemma_two_lines(a: Seq<char>, b: Seq<char>)
    requires
        plain_line(a),
        plain_line(b),
    ensures
        lines(a + seq!['\n'] + b + seq!['\n']) == seq![a, b],
{
    let nl = seq!['\n'];
    let ls = seq![a, b];
    let parts = ls.push(Seq::<char>::empty());
    assert(parts.drop_last() =~= ls);
    assert(ls.drop_last() =~= seq![a]);
    assert(join(seq![a], nl) == a);
    assert(join(ls, nl) == a + nl + b);
    assert(join(parts, nl) =~= a + nl + b + nl);
    assert forall|k: int| 0 <= k < ls.len() implies plain_line(#[trigger] ls[k]) by {}
    lemma_lines_of(ls);
}

/// Whether `n` can follow `Name=` on a line of its own: not empty, no line
/// break in it, and no whitespace at its end.
pub open spec fn plain_name(n: Seq<char>) -> bool {
    n.len() > 0 && !n.contains('\n') && !is_ws(n.last())
}

proof fn lemma_header_and_name(n: Seq<char>)
    requires
        plain_name(n),
    ensures
        plain_line("[Desktop Entry]"@),
        plain_line("Name="@ + n),
        desktop_step(desktop_start(), "[Desktop Entry]"@) == (DesktopState {
            name: None,
            is_app: true,
            in_entry: true,
            hidden: false,
        }),
        desktop_step(
            DesktopState { name: None, is_app: true, in_entry: true, hidden: false },
            "Name="@ + n,
        ) == (DesktopState { name: Some(n), is_app: true, in_entry: true, hidden: false }),
{
    reveal_strlit("[Desktop Entry]");
    reveal_strlit("Name=");
    let h = "[Desktop Entry]"@;
    let l = "Name="@ + n;
    assert(!h.contains('\n')) by {
        assert forall|i: int| 0 <= i < h.len() implies h[i] != '\n' by {}
    }
    assert(!l.contains('\n')) by {
        assert forall|i: int| 0 <= i < l.len() implies l[i] != '\n' by {
            if i >= 5 {
                assert(l[i] == n[i - 5]);
            }
        }
    }
    assert(l.last() == n.last());
    assert(n.last() != '\r') by {
        assert(is_ws('\r'));
    }
    lemma_trim_plain(h);
    assert(is_ws(l[0]) == false);
    lemma_trim_plain(l);
    assert(l.take(5) =~= "Name="@);
    assert(l.skip(5) =~= n);
}

/// The state after the header and the name line.
proof fn lemma_fold_header_name(n: Seq<char>)
    requires
        plain_name(n),
    ensures
        desktop_fold(seq!["[Desktop Entry]"@, "Name="@ + n]) == (DesktopState {
            name: Some(n),
            is_app: true,
            in_entry: true,
            hidden: false,
        }),
{
    lemma_header_and_name(n);
    let h = "[Desktop Entry]"@;
    let ls = seq![h, "Name="@ + n];
    assert(ls.drop_last() =~= seq![h]);
    assert(seq![h].drop_last() =~= Seq::<Seq<char>>::empty());
    assert(seq![h].last() == h);
    assert(desktop_fold(Seq::<Seq<char>>::empty()) == desktop_start());
    assert(desktop_fold(seq![h]) == desktop_step(desktop_fold(seq![h].drop_last()), seq![h].last()));
    assert(desktop_fold(seq![h]) == desktop_step(desktop_start(), h));
    assert(desktop_fold(ls) == desktop_step(desktop_fold(seq![h]), "Name="@ + n));
}

/// The state after the header, the name line and one more line `x`.
proof fn lemma_fold_third(n: Seq<char>, x: Seq<char>)
    requires
        plain_name(n),
        plain_line(x),
    ensures
        desktop_name("[Desktop Entry]"@ + seq!['\n'] + "Name="@ + n + seq!['\n'] + x + seq!['\n'])
            == (if desktop_step(
            DesktopState { name: Some(n), is_app: true, in_entry: true, hidden: false },
            x,
        ).hidden {
            None
        } else if desktop_step(
            DesktopState { name: Some(n), is_app: true, in_entry: true, hidden: false },
            x,
        ).is_app {
            desktop_step(DesktopState { name: Some(n), is_app: true, in_entry: true, hidden: false }, x).name
        } else {
            None
        }),
{
    lemma_header_and_name(n);
    lemma_fold_header_name(n);
    let h = "[Desktop Entry]"@;
    let nm = "Name="@ + n;
    let nl = seq!['\n'];
    lemma_three_lines(h, nm, x);
    let ls = seq![h, nm, x];
    assert(ls.drop_last() =~= seq![h, nm]);
    assert(desktop_fold(ls) == desktop_step(desktop_fold(seq![h, nm]), x));
    assert(h + nl + nm + nl + x + nl =~= h + nl + "Name="@ + n + nl + x + nl);
}

/// A desktop entry whose `[Desktop Entry]` group names an application shows
/// that name.
pub proof fn lemma_desktop_shows_its_name(n: Seq<char>)
    requires
        plain_name(n),
    ensures
        desktop_name("[Desktop Entry]"@ + seq!['\n'] + "Name="@ + n + seq!['\n']) == Some(n),
{
    lemma_header_and_name(n);
    lemma_fold_header_name(n);
    let h = "[Desktop Entry]"@;
    let nm = "Name="@ + n;
    let nl = seq!['\n'];
    lemma_two_lines(h, nm);
    assert(h + nl + nm + nl =~= h + nl + "Name="@ + n + nl);
}

/// An entry that asks not to be shown (`NoDisplay=true`) shows nothing,
/// whatever it is named.
pub proof fn lemma_desktop_no_display(n: Seq<char>)
    requires
        plain_name(n),
    ensures
        desktop_name(
            "[Desktop Entry]"@ + seq!['\n'] + "Name="@ + n + seq!['\n'] + "NoDisplay=true"@ + seq!['\n'],
        ) is None,
{
    reveal_strlit("Name=");
    reveal_strlit("NoDisplay=true");
    reveal_strlit("NoDisplay=");
    reveal_strlit("Type=");
    reveal_strlit("true");
    let x = "NoDisplay=true"@;
    assert(plain_line(x)) by {
        assert forall|i: int| 0 <= i < x.len() implies x[i] != '\n' by {}
    }
    lemma_trim_plain(x);
    assert(x.take(5)[1] != "Name="@[1]);
    assert(x.take(5)[0] != "Type="@[0]);
    assert(x.take(10) =~= "NoDisplay="@);
    assert(x.skip(10) =~= "true"@);
    lemma_fold_third(n, x);
}

/// An entry that is hidden (`Hidden=true`) shows nothing, whatever it is
/// named.
pub proof fn lemma_desktop_hidden(n: Seq<char>)
    requires
        plain_name(n),
    ensures
        desktop_name("[Desktop Entry]"@ + seq!['\n'] + "Name="@ + n + seq!['\n'] + "Hidden=true"@ + seq!['\n'])
            is None,
{
    reveal_strlit("Name=");
    reveal_strlit("Hidden=true");
    reveal_strlit("Hidden=");
    reveal_strlit("NoDisplay=");
    reveal_strlit("Type=");
    reveal_strlit("true");
    let y = "Hidden=true"@;
    assert(plain_line(y)) by {
        assert forall|i: int| 0 <= i < y.len() implies y[i] != '\n' by {}
    }
    lemma_trim_plain(y);
    assert(y.take(5)[0] != "Name="@[0]);
    assert(y.take(5)[0] != "Type="@[0]);
    assert(y.take(10)[0] != "NoDisplay="@[0]);
    assert(y.take(7) =~= "Hidden="@);
    assert(y.skip(7) =~= "true"@);
    lemma_fold_third(n, y);
}

/// An entry whose type is not `Application` shows nothing; one whose type is
/// shows its name.
pub proof fn lemma_desktop_type(n: Seq<char>, t: Seq<char>)
    requires
        plain_name(n),
        plain_name(t),
        t != "Application"@,
    ensures
        desktop_name("[Desktop Entry]"@ + seq!['\n'] + "Name="@ + n + seq!['\n'] + "Type="@ + t + seq!['\n'])
            is None,
        desktop_name(
            "[Desktop Entry]"@ + seq!['\n'] + "Name="@ + n + seq!['\n'] + "Type=Application"@ + seq!['\n'],
        ) == Some(n),
{
    reveal_strlit("Name=");
    reveal_strlit("Type=");
    reveal_strlit("Type=Application");
    reveal_strlit("Application");
    let z = "Type="@ + t;
    assert forall|i: int| 0 <= i < z.len() implies z[i] != '\n' by {
        if i >= 5 {
            assert(z[i] == t[i - 5]);
        }
    }
    assert(z.last() == t.last());
    assert(is_ws('\r'));
    assert(plain_line(z));
    lemma_trim_plain(z);
    assert(z.take(5)[0] != "Name="@[0]);
    assert(z.take(5) =~= "Type="@);
    assert(z.skip(5) =~= t);
    lemma_fold_third(n, z);
    assert("[Desktop Entry]"@ + seq!['\n'] + "Name="@ + n + seq!['\n'] + z + seq!['\n'] =~= "[Desktop Entry]"@
        + seq!['\n'] + "Name="@ + n + seq!['\n'] + "Type="@ + t + seq!['\n']);
    let w = "Type=Application"@;
    assert(plain_line(w)) by {
        assert forall|i: int| 0 <= i < w.len() implies w[i] != '\n' by {}
    }
    lemma_trim_plain(w);
    assert(w.take(5)[0] != "Name="@[0]);
    assert(w.take(5) =~= "Type="@);
    assert(w.skip(5) =~= "Application"@);
    lemma_fold_third(n, w);
}

} // verus!
