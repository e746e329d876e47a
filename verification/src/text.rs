//! Text as the collectors and views see it: a string is a sequence of
//! characters, split into lines and fields, trimmed, compared and printed.
//!
//! Each operation here is stated over `Seq<char>` and proved against that
//! statement; the one exception is Unicode lowercasing, whose tables belong to
//! std and are only named (`lowercase`).

use vstd::prelude::*;

verus! {

broadcast use vstd::string::group_string_axioms;

// ------------------------------------------------------------------------
// Characters in, characters out
// ------------------------------------------------------------------------

/// The characters of `s`, in order.
pub fn chars_of(s: &str) -> (r: Vec<char>)
    ensures
        r@ == s@,
{
    let mut r: Vec<char> = Vec::new();
    for c in it: s.chars()
        invariant
            r@ == it.seq().take(it.index() as int),
            it.seq() == s@,
    {
        r.push(c);
    }
    r
}

/// Appends one character to a string (`String::push`).
#[verifier::external_body]
fn push_char(s: &mut String, c: char)
    ensures
        final(s)@ == old(s)@.push(c),
{
    s.push(c)
}

/// Appends every character of `v` to `s`.
pub fn push_chars(s: &mut String, v: &[char])
    ensures
        final(s)@ == old(s)@ + v@,
{
    let ghost start = s@;
    let mut i: usize = 0;
    while i < v.len()
        invariant
            i <= v.len(),
            s@ == start + v@.take(i as int),
        decreases v.len() - i,
    {
        push_char(s, v[i]);
        assert(start + v@.take(i as int) + seq![v@[i as int]] =~= start + v@.take(i + 1));
        i += 1;
    }
    assert(v@.take(v.len() as int) =~= v@);
}

/// Appends the characters of `t` to `s`.
pub fn push_str(s: &mut String, t: &str)
    ensures
        final(s)@ == old(s)@ + t@,
{
    let v = chars_of(t);
    push_chars(s, v.as_slice());
}

/// A string holding exactly the characters of `v`.
pub fn string_of(v: &[char]) -> (r: String)
    ensures
        r@ == v@,
{
    let mut r = String::new();
    push_chars(&mut r, v);
    assert(Seq::<char>::empty() + v@ =~= v@);
    r
}

/// An owned copy of a string slice.
pub fn owned(s: &str) -> (r: String)
    ensures
        r@ == s@,
{
    let v = chars_of(s);
    string_of(v.as_slice())
}

/// A copy of a string.
pub fn copy_string(s: &String) -> (r: String)
    ensures
        r@ == s@,
{
    s.clone()
}

/// The views of a sequence of strings.
pub open spec fn string_views(v: Seq<String>) -> Seq<Seq<char>> {
    v.map_values(|s: String| s@)
}

pub proof fn lemma_string_views_push(s: Seq<String>, x: String)
    ensures
        string_views(s.push(x)) == string_views(s).push(x@),
{
    assert(string_views(s.push(x)) =~= string_views(s).push(x@));
}

/// The views of a sequence of character vectors.
pub open spec fn char_views(v: Seq<Vec<char>>) -> Seq<Seq<char>> {
    v.map_values(|s: Vec<char>| s@)
}

pub proof fn lemma_char_views_push(s: Seq<Vec<char>>, x: Vec<char>)
    ensures
        char_views(s.push(x)) == char_views(s).push(x@),
{
    assert(char_views(s.push(x)) =~= char_views(s).push(x@));
}

// ------------------------------------------------------------------------
// Whitespace
// ------------------------------------------------------------------------

/// Unicode `White_Space`, the set `char::is_whitespace` tests for.
pub open spec fn is_ws(c: char) -> bool {
    let u = c as u32;
    ||| 0x09 <= u <= 0x0d
    ||| u == 0x20
    ||| u == 0x85
    ||| u == 0xa0
    ||| u == 0x1680
    ||| 0x2000 <= u <= 0x200a
    ||| u == 0x2028
    ||| u == 0x2029
    ||| u == 0x202f
    ||| u == 0x205f
    ||| u == 0x3000
}

/// Whether `c` is whitespace.
pub fn is_whitespace(c: char) -> (r: bool)
    ensures
        r == is_ws(c),
{
    let u = c as u32;
    (0x09 <= u && u <= 0x0d) || u == 0x20 || u == 0x85 || u == 0xa0 || u == 0x1680 || (0x2000
        <= u && u <= 0x200a) || u == 0x2028 || u == 0x2029 || u == 0x202f || u == 0x205f || u
        == 0x3000
}

// ------------------------------------------------------------------------
// Splitting
// ------------------------------------------------------------------------

/// What separates the pieces of a split: one given character, or any whitespace.
pub enum Sep {
    Char(char),
    Space,
}

pub open spec fn is_sep(sep: Sep, c: char) -> bool {
    match sep {
        Sep::Char(x) => c == x,
        Sep::Space => is_ws(c),
    }
}

/// The pieces of `s` between separators, as `str::split` yields them: always at
/// least one piece, an empty one between adjacent separators and at either end.
pub open spec fn split_by(s: Seq<char>, sep: Sep) -> Seq<Seq<char>>
    decreases s.len(),
{
    if s.len() == 0 {
        seq![Seq::<char>::empty()]
    } else {
        let prev = split_by(s.drop_last(), sep);
        if is_sep(sep, s.last()) {
            prev.push(Seq::<char>::empty())
        } else {
            prev.update(prev.len() - 1, prev.last().push(s.last()))
        }
    }
}

pub proof fn lemma_split_by_nonempty(s: Seq<char>, sep: Sep)
    ensures
        split_by(s, sep).len() >= 1,
    decreases s.len(),
{
    if s.len() > 0 {
        lemma_split_by_nonempty(s.drop_last(), sep);
    }
}

/// `split_by` of a prefix grows by one character at a time.
proof fn lemma_split_by_step(s: Seq<char>, i: int, sep: Sep)
    requires
        0 <= i < s.len(),
    ensures
        split_by(s.take(i + 1), sep) == if is_sep(sep, s[i]) {
            split_by(s.take(i), sep).push(Seq::<char>::empty())
        } else {
            split_by(s.take(i), sep).update(
                split_by(s.take(i), sep).len() - 1,
                split_by(s.take(i), sep).last().push(s[i]),
            )
        },
{
    assert(s.take(i + 1).drop_last() =~= s.take(i));
}

/// A string with no separator in it is one piece.
pub proof fn lemma_split_by_whole(a: Seq<char>, sep: Sep)
    requires
        forall|i: int| 0 <= i < a.len() ==> !is_sep(sep, #[trigger] a[i]),
    ensures
        split_by(a, sep) == seq![a],
    decreases a.len(),
{
    if a.len() > 0 {
        let p = a.drop_last();
        assert forall|i: int| 0 <= i < p.len() implies !is_sep(sep, #[trigger] p[i]) by {
            assert(p[i] == a[i]);
        }
        lemma_split_by_whole(p, sep);
        assert(!is_sep(sep, a[a.len() - 1]));
        assert(p.push(a.last()) =~= a);
        assert(split_by(a, sep) =~= seq![a]);
    } else {
        assert(a =~= Seq::<char>::empty());
    }
}

/// Text with no separator added at the end lengthens the last piece.
proof fn lemma_split_by_extend(p: Seq<char>, t: Seq<char>, sep: Sep)
    requires
        forall|i: int| 0 <= i < t.len() ==> !is_sep(sep, #[trigger] t[i]),
    ensures
        split_by(p + t, sep) == split_by(p, sep).update(
            split_by(p, sep).len() - 1,
            split_by(p, sep).last() + t,
        ),
    decreases t.len(),
{
    lemma_split_by_nonempty(p, sep);
    let sp = split_by(p, sep);
    if t.len() == 0 {
        assert(p + t =~= p);
        assert(sp.last() + t =~= sp.last());
        assert(sp.update(sp.len() - 1, sp.last() + t) =~= sp);
    } else {
        let u = t.drop_last();
        assert forall|i: int| 0 <= i < u.len() implies !is_sep(sep, #[trigger] u[i]) by {
            assert(u[i] == t[i]);
        }
        lemma_split_by_extend(p, u, sep);
        assert((p + t).drop_last() =~= p + u);
        assert((p + t).last() == t[t.len() - 1]);
        assert(!is_sep(sep, t[t.len() - 1]));
        let mid = split_by(p + u, sep);
        assert(mid =~= sp.update(sp.len() - 1, sp.last() + u));
        assert((sp.last() + u).push(t.last()) =~= sp.last() + t);
        assert(split_by(p + t, sep) =~= sp.update(sp.len() - 1, sp.last() + t));
    }
}

/// Splitting pieces joined by a separator they do not hold gives them back.
pub proof fn lemma_split_join(parts: Seq<Seq<char>>, c: char)
    requires
        parts.len() >= 1,
        forall|k: int| 0 <= k < parts.len() ==> !(#[trigger] parts[k]).contains(c),
    ensures
        split_by(join(parts, seq![c]), Sep::Char(c)) == parts,
    decreases parts.len(),
{
    let sep = Sep::Char(c);
    let last = parts.last();
    assert forall|i: int| 0 <= i < last.len() implies !is_sep(sep, #[trigger] last[i]) by {
        if last[i] == c {
            assert(parts[parts.len() - 1].contains(c));
        }
    }
    if parts.len() == 1 {
        lemma_split_by_whole(parts[0], sep);
        assert(seq![parts[0]] =~= parts);
    } else {
        let init = parts.drop_last();
        assert forall|k: int| 0 <= k < init.len() implies !(#[trigger] init[k]).contains(c) by {
            assert(init[k] == parts[k]);
        }
        lemma_split_join(init, c);
        let j = join(init, seq![c]);
        let jc = j + seq![c];
        assert(jc.drop_last() =~= j);
        assert(split_by(jc, sep) == split_by(j, sep).push(Seq::<char>::empty()));
        lemma_split_by_extend(jc, last, sep);
        assert(join(parts, seq![c]) =~= jc + last);
        assert(Seq::<char>::empty() + last =~= last);
        assert(split_by(join(parts, seq![c]), sep) =~= parts);
    }
}

/// The pieces of `v` between separators (`str::split`).
pub fn split_chars(v: &[char], sep: &Sep) -> (r: Vec<Vec<char>>)
    ensures
        char_views(r@) == split_by(v@, *sep),
{
    let mut done: Vec<Vec<char>> = Vec::new();
    let mut cur: Vec<char> = Vec::new();
    let mut i: usize = 0;
    while i < v.len()
        invariant
            i <= v.len(),
            char_views(done@).push(cur@) == split_by(v@.take(i as int), *sep),
        decreases v.len() - i,
    {
        let c = v[i];
        proof {
            lemma_split_by_step(v@, i as int, *sep);
        }
        let hit = match sep {
            Sep::Char(x) => c == *x,
            Sep::Space => is_whitespace(c),
        };
        if hit {
            let piece = cur;
            done.push(piece);
            cur = Vec::new();
            assert(char_views(done@).push(cur@) =~= split_by(v@.take(i + 1), *sep));
        } else {
            let ghost before = char_views(done@).push(cur@);
            cur.push(c);
            assert(char_views(done@).push(cur@) =~= before.update(
                before.len() - 1,
                before.last().push(c),
            ));
        }
        i += 1;
    }
    assert(v@.take(v.len() as int) =~= v@);
    let last = cur;
    done.push(last);
    done
}

/// A line as `str::lines` yields it once its `\n` is cut: without a trailing `\r`.
pub open spec fn strip_cr(l: Seq<char>) -> Seq<char> {
    if l.len() > 0 && l.last() == '\r' {
        l.drop_last()
    } else {
        l
    }
}

/// Each of `p` without a trailing `\r`.
pub open spec fn strip_all(p: Seq<Seq<char>>) -> Seq<Seq<char>> {
    p.map_values(|l: Seq<char>| strip_cr(l))
}

/// The lines of `s`, as `str::lines` yields them: split at `\n`; a line that a
/// `\n` ended loses one trailing `\r`; a final `\n` does not start another
/// line, and an empty text has no lines.
pub open spec fn lines(s: Seq<char>) -> Seq<Seq<char>> {
    let p = split_by(s, Sep::Char('\n'));
    let ended = strip_all(p.take(p.len() - 1));
    if p.last().len() == 0 {
        ended
    } else {
        ended.push(p.last())
    }
}

/// `l` without a trailing `\r`.
fn strip_cr_vec(l: Vec<char>) -> (r: Vec<char>)
    ensures
        r@ == strip_cr(l@),
{
    let ghost orig = l@;
    let mut l = l;
    if l.len() > 0 && l[l.len() - 1] == '\r' {
        l.pop();
        assert(l@ =~= strip_cr(orig));
    }
    l
}

/// The lines of `v` (`str::lines`).
pub fn split_lines(v: &[char]) -> (r: Vec<Vec<char>>)
    ensures
        char_views(r@) == lines(v@),
{
    let pieces = split_chars(v, &Sep::Char('\n'));
    proof {
        lemma_split_by_nonempty(v@, Sep::Char('\n'));
    }
    let ghost p = split_by(v@, Sep::Char('\n'));
    let n = pieces.len();
    let mut out: Vec<Vec<char>> = Vec::new();
    let mut i: usize = 0;
    while i + 1 < n
        invariant
            n == p.len(),
            n == pieces.len(),
            n >= 1,
            i + 1 <= n,
            char_views(pieces@) == p,
            char_views(out@) == strip_all(p.take(i as int)),
        decreases n - i,
    {
        let x = pieces[i].clone();
        assert(x@ == p[i as int]);
        let y = strip_cr_vec(x);
        let ghost y_copy = y;
        let ghost before = char_views(out@);
        let ghost old_out = out@;
        assert(before.len() == i);
        assert(old_out.len() == i);
        out.push(y);
        assert(out@ == old_out.push(y_copy));
        assert forall|k: int| 0 <= k < i + 1 implies #[trigger] char_views(out@)[k] == strip_all(
            p.take(i + 1),
        )[k] by {
            assert(p.take(i + 1)[k] == p[k]);
            if k < i {
                assert(out@[k] == old_out[k]);
                assert(before[k] == strip_all(p.take(i as int))[k]);
                assert(p.take(i as int)[k] == p[k]);
            } else {
                assert(out@[k] == y_copy);
                assert(y_copy@ == strip_cr(p[k]));
            }
        }
        assert(char_views(out@) =~= strip_all(p.take(i + 1)));
        i += 1;
    }
    let last = pieces[n - 1].clone();
    assert(last@ == p.last());
    if last.len() > 0 {
        out.push(last);
    }
    assert(char_views(out@) =~= lines(v@));
    out
}

/// The whitespace-separated words of `s`, as `str::split_whitespace` yields them.
pub open spec fn words(s: Seq<char>) -> Seq<Seq<char>> {
    split_by(s, Sep::Space).filter(|w: Seq<char>| w.len() > 0)
}

/// The words of `v` (`str::split_whitespace`).
pub fn split_words(v: &[char]) -> (r: Vec<Vec<char>>)
    ensures
        char_views(r@) == words(v@),
{
    let pieces = split_chars(v, &Sep::Space);
    let mut out: Vec<Vec<char>> = Vec::new();
    let mut i: usize = 0;
    let ghost p = split_by(v@, Sep::Space);
    while i < pieces.len()
        invariant
            i <= pieces.len(),
            char_views(pieces@) == p,
            char_views(out@) == p.take(i as int).filter(|w: Seq<char>| w.len() > 0),
        decreases pieces.len() - i,
    {
        proof {
            assert(p.take(i + 1) =~= p.take(i as int).push(p[i as int]));
            p.take(i as int).lemma_filter_push(p[i as int], |w: Seq<char>| w.len() > 0);
        }
        if pieces[i].len() > 0 {
            let w = pieces[i].clone();
            assert(w@ == pieces@[i as int]@);
            out.push(w);
            assert(char_views(out@) =~= p.take(i as int).filter(|w: Seq<char>| w.len() > 0).push(
                p[i as int],
            ));
        }
        i += 1;
    }
    assert(p.take(pieces.len() as int) =~= p);
    out
}

// ------------------------------------------------------------------------
// Trimming, prefixes, comparisons
// ------------------------------------------------------------------------

/// `s` without leading whitespace.
pub open spec fn trim_start(s: Seq<char>) -> Seq<char>
    decreases s.len(),
{
    if s.len() > 0 && is_ws(s[0]) {
        trim_start(s.drop_first())
    } else {
        s
    }
}

/// `s` without trailing whitespace.
pub open spec fn trim_end(s: Seq<char>) -> Seq<char>
    decreases s.len(),
{
    if s.len() > 0 && is_ws(s.last()) {
        trim_end(s.drop_last())
    } else {
        s
    }
}

/// `s` without leading or trailing whitespace (`str::trim`).
pub open spec fn trim(s: Seq<char>) -> Seq<char> {
    trim_end(trim_start(s))
}

proof fn lemma_trim_start_skip(s: Seq<char>, i: int)
    requires
        0 <= i <= s.len(),
        forall|k: int| 0 <= k < i ==> is_ws(#[trigger] s[k]),
    ensures
        trim_start(s) == trim_start(s.skip(i)),
    decreases i,
{
    if i > 0 {
        assert(s.drop_first().skip(i - 1) =~= s.skip(i));
        lemma_trim_start_skip(s.drop_first(), i - 1);
    } else {
        assert(s.skip(0) =~= s);
    }
}

proof fn lemma_trim_end_take(s: Seq<char>, j: int)
    requires
        0 <= j <= s.len(),
        forall|k: int| j <= k < s.len() ==> is_ws(#[trigger] s[k]),
    ensures
        trim_end(s) == trim_end(s.take(j)),
    decreases s.len() - j,
{
    if j < s.len() {
        assert(s.drop_last().take(j) =~= s.take(j));
        lemma_trim_end_take(s.drop_last(), j);
    } else {
        assert(s.take(j) =~= s);
    }
}

/// `v` without leading or trailing whitespace (`str::trim`).
pub fn trim_chars(v: &[char]) -> (r: Vec<char>)
    ensures
        r@ == trim(v@),
{
    let mut i: usize = 0;
    while i < v.len() && is_whitespace(v[i])
        invariant
            i <= v.len(),
            forall|k: int| 0 <= k < i ==> is_ws(#[trigger] v@[k]),
        decreases v.len() - i,
    {
        i += 1;
    }
    proof {
        lemma_trim_start_skip(v@, i as int);
    }
    let mut j: usize = v.len();
    while j > i && is_whitespace(v[j - 1])
        invariant
            i <= j <= v.len(),
            forall|k: int| j <= k < v.len() ==> is_ws(#[trigger] v@[k]),
        decreases j,
    {
        j -= 1;
    }
    let ghost mid = v@.skip(i as int);
    proof {
        lemma_trim_end_take(mid, j - i);
        assert(mid.take(j - i) =~= v@.subrange(i as int, j as int));
        let m = mid.take(j - i);
        if m.len() > 0 {
            assert(m[0] == v@[i as int]);
        }
        assert(trim_start(mid) == mid);
    }
    let mut r: Vec<char> = Vec::new();
    let mut k: usize = i;
    while k < j
        invariant
            i <= k <= j <= v.len(),
            r@ == v@.subrange(i as int, k as int),
        decreases j - k,
    {
        r.push(v[k]);
        assert(r@ =~= v@.subrange(i as int, k + 1));
        k += 1;
    }
    r
}

/// Whether `v` begins with `p`.
pub open spec fn has_prefix(v: Seq<char>, p: Seq<char>) -> bool {
    v.len() >= p.len() && v.take(p.len() as int) == p
}

/// `v` without its prefix `lit`, if it has that prefix (`str::strip_prefix`).
pub fn strip_prefix(v: &[char], lit: &str) -> (r: Option<Vec<char>>)
    ensures
        has_prefix(v@, lit@) ==> (r matches Some(rest) && rest@ == v@.skip(lit@.len() as int)),
        !has_prefix(v@, lit@) ==> r is None,
{
    let p = chars_of(lit);
    if p.len() > v.len() {
        return None;
    }
    let mut i: usize = 0;
    while i < p.len()
        invariant
            i <= p.len() <= v.len(),
            p@ == lit@,
            forall|k: int| 0 <= k < i ==> v@[k] == p@[k],
        decreases p.len() - i,
    {
        if v[i] != p[i] {
            assert(v@.take(p.len() as int)[i as int] != p@[i as int]);
            return None;
        }
        i += 1;
    }
    assert(v@.take(p.len() as int) =~= p@);
    let mut rest: Vec<char> = Vec::new();
    let mut k: usize = p.len();
    while k < v.len()
        invariant
            p.len() <= k <= v.len(),
            rest@ == v@.subrange(p.len() as int, k as int),
        decreases v.len() - k,
    {
        rest.push(v[k]);
        assert(rest@ =~= v@.subrange(p.len() as int, k + 1));
        k += 1;
    }
    assert(rest@ =~= v@.skip(lit@.len() as int));
    Some(rest)
}

/// Whether `v` holds exactly the characters of `lit`.
pub fn eq_lit(v: &[char], lit: &str) -> (r: bool)
    ensures
        r == (v@ == lit@),
{
    let p = chars_of(lit);
    eq_chars(v, p.as_slice())
}

/// Whether `a` and `b` hold the same characters.
pub fn eq_chars(a: &[char], b: &[char]) -> (r: bool)
    ensures
        r == (a@ == b@),
{
    if a.len() != b.len() {
        return false;
    }
    let mut i: usize = 0;
    while i < a.len()
        invariant
            i <= a.len() == b.len(),
            forall|k: int| 0 <= k < i ==> a@[k] == b@[k],
        decreases a.len() - i,
    {
        if a[i] != b[i] {
            return false;
        }
        i += 1;
    }
    assert(a@ =~= b@);
    true
}

/// Whether two strings hold the same characters.
pub fn eq_str(a: &str, b: &str) -> (r: bool)
    ensures
        r == (a@ == b@),
{
    let x = chars_of(a);
    let y = chars_of(b);
    eq_chars(x.as_slice(), y.as_slice())
}

/// `c` with ASCII `A`–`Z` mapped to `a`–`z`, as a code point.
pub open spec fn ascii_lower(c: char) -> u32 {
    let u = c as u32;
    if 0x41 <= u <= 0x5a {
        (u + 0x20) as u32
    } else {
        u
    }
}

/// Whether `a` and `b` match when ASCII letters are compared without case
/// (`str::eq_ignore_ascii_case`).
pub open spec fn eq_ascii_nocase(a: Seq<char>, b: Seq<char>) -> bool {
    a.len() == b.len() && forall|k: int| 0 <= k < a.len() ==> ascii_lower(a[k]) == ascii_lower(b[k])
}

fn ascii_lower_code(c: char) -> (r: u32)
    ensures
        r == ascii_lower(c),
{
    let u = c as u32;
    if 0x41 <= u && u <= 0x5a {
        u + 0x20
    } else {
        u
    }
}

/// Whether `v` equals `lit` up to ASCII case (`str::eq_ignore_ascii_case`).
pub fn eq_ignore_ascii_case(v: &[char], lit: &str) -> (r: bool)
    ensures
        r == eq_ascii_nocase(v@, lit@),
{
    let p = chars_of(lit);
    if v.len() != p.len() {
        return false;
    }
    let mut i: usize = 0;
    while i < v.len()
        invariant
            i <= v.len() == p.len(),
            p@ == lit@,
            forall|k: int| 0 <= k < i ==> ascii_lower(v@[k]) == ascii_lower(p@[k]),
        decreases v.len() - i,
    {
        if ascii_lower_code(v[i]) != ascii_lower_code(p[i]) {
            return false;
        }
        i += 1;
    }
    true
}

/// Whether `needle` occurs in `hay` as a run of consecutive characters
/// (`str::contains` with a string pattern).
pub open spec fn contains_seq(hay: Seq<char>, needle: Seq<char>) -> bool {
    exists|i: int|
        0 <= i && i + needle.len() <= hay.len() && #[trigger] hay.subrange(i, i + needle.len())
            == needle
}

/// Whether `needle` occurs in `hay`.
pub fn contains_chars(hay: &[char], needle: &[char]) -> (r: bool)
    ensures
        r == contains_seq(hay@, needle@),
{
    if needle.len() > hay.len() {
        return false;
    }
    let mut i: usize = 0;
    while i <= hay.len() - needle.len()
        invariant
            needle.len() <= hay.len(),
            i <= hay.len() - needle.len() + 1,
            forall|k: int|
                0 <= k < i ==> #[trigger] hay@.subrange(k, k + needle.len()) != needle@,
        decreases hay.len() - i,
    {
        let mut j: usize = 0;
        let mut same = true;
        while j < needle.len()
            invariant
                j <= needle.len(),
                i + needle.len() <= hay.len(),
                same == forall|k: int| 0 <= k < j ==> hay@[i + k] == needle@[k],
            decreases needle.len() - j,
        {
            if hay[i + j] != needle[j] {
                same = false;
            }
            j += 1;
        }
        if same {
            assert(hay@.subrange(i as int, i + needle.len()) =~= needle@);
            return true;
        } else {
            assert(hay@.subrange(i as int, i + needle.len()) != needle@) by {
                let k = choose|k: int| 0 <= k < needle.len() && hay@[i + k] != needle@[k];
                assert(hay@.subrange(i as int, i + needle.len())[k] == hay@[i + k]);
            }
        }
        i += 1;
    }
    assert forall|k: int|
        0 <= k && k + needle.len() <= hay.len() implies #[trigger] hay@.subrange(
        k,
        k + needle.len(),
    ) != needle@ by {}
    false
}

/// The parts joined with `sep` between each two (`[String]::join`).
pub open spec fn join(parts: Seq<Seq<char>>, sep: Seq<char>) -> Seq<char>
    decreases parts.len(),
{
    if parts.len() == 0 {
        Seq::empty()
    } else if parts.len() == 1 {
        parts[0]
    } else {
        join(parts.drop_last(), sep) + sep + parts.last()
    }
}

/// The strings joined with `sep` between each two.
pub fn join_strings(parts: &Vec<String>, sep: &str) -> (r: String)
    ensures
        r@ == join(string_views(parts@), sep@),
{
    let ghost pv = string_views(parts@);
    let mut r = String::new();
    let mut i: usize = 0;
    while i < parts.len()
        invariant
            pv == string_views(parts@),
            i <= parts.len(),
            r@ == join(pv.take(i as int), sep@),
        decreases parts.len() - i,
    {
        assert(pv.take(i + 1).drop_last() =~= pv.take(i as int));
        assert(pv.take(i + 1).last() == parts@[i as int]@);
        if i > 0 {
            push_str(&mut r, sep);
        }
        push_str(&mut r, parts[i].as_str());
        if i == 0 {
            assert(r@ =~= join(pv.take(1), sep@));
        }
        i += 1;
    }
    assert(pv.take(parts.len() as int) =~= pv);
    r
}

// ------------------------------------------------------------------------
// Lowercase (Unicode, by std)
// ------------------------------------------------------------------------

/// What `str::to_lowercase` returns for a string with these characters.
pub uninterp spec fn lowercase(s: Seq<char>) -> Seq<char>;

/// `str::to_lowercase`: the Unicode lowercase mapping of each character. Its
/// contract names the result `lowercase(s)` and states only that each
/// character maps to one or more characters, so the empty string and only it
/// maps to the empty string.
#[verifier::external_body]
pub(crate) fn to_lower(s: &str) -> (r: String)
    ensures
        r@ == lowercase(s@),
        r@.len() == 0 <==> s@.len() == 0,
{
    s.to_lowercase()
}

// ------------------------------------------------------------------------
// Order
// ------------------------------------------------------------------------

/// Lexicographic order by code point, which is how `String`s compare.
pub open spec fn seq_lt(a: Seq<char>, b: Seq<char>) -> bool
    decreases a.len(),
{
    if a.len() == 0 {
        b.len() > 0
    } else if b.len() == 0 {
        false
    } else if a[0] < b[0] {
        true
    } else if a[0] > b[0] {
        false
    } else {
        seq_lt(a.drop_first(), b.drop_first())
    }
}

/// The outcome of comparing two keys.
pub enum Order {
    Less,
    Equal,
    Greater,
}

/// Compares `a` and `b` lexicographically by code point.
pub fn compare_chars(a: &[char], b: &[char]) -> (r: Order)
    ensures
        r is Less <==> seq_lt(a@, b@),
        r is Equal <==> a@ == b@,
        r is Greater <==> seq_lt(b@, a@),
{
    let mut i: usize = 0;
    while i < a.len() && i < b.len() && a[i] == b[i]
        invariant
            i <= a.len(),
            i <= b.len(),
            a@.take(i as int) == b@.take(i as int),
        decreases a.len() - i,
    {
        assert(a@.take(i + 1) =~= a@.take(i as int).push(a@[i as int]));
        assert(b@.take(i + 1) =~= b@.take(i as int).push(b@[i as int]));
        i += 1;
    }
    proof {
        lemma_seq_lt_common_prefix(a@, b@, i as int);
        lemma_seq_lt_common_prefix(b@, a@, i as int);
    }
    let ghost sa = a@.skip(i as int);
    let ghost sb = b@.skip(i as int);
    assert(sa.len() == a.len() - i);
    assert(sb.len() == b.len() - i);
    if i < a.len() && i < b.len() {
        assert(sa[0] == a@[i as int]);
        assert(sb[0] == b@[i as int]);
        if a[i] < b[i] {
            assert(seq_lt(sa, sb));
            assert(!seq_lt(sb, sa));
            assert(a@[i as int] != b@[i as int]);
            assert(a@ != b@);
            Order::Less
        } else {
            assert(a@[i as int] != b@[i as int]);
            assert(a@[i as int] > b@[i as int]);
            assert(!seq_lt(sa, sb));
            assert(seq_lt(sb, sa));
            assert(a@ != b@);
            Order::Greater
        }
    } else if i < b.len() {
        assert(a@ != b@);
        Order::Less
    } else if i < a.len() {
        assert(a@ != b@);
        Order::Greater
    } else {
        assert(a@ =~= a@.take(i as int));
        assert(b@ =~= b@.take(i as int));
        proof {
            lemma_seq_lt_irreflexive(a@);
        }
        Order::Equal
    }
}

/// Past a common prefix of length `i`, the order is decided at `i`.
proof fn lemma_seq_lt_common_prefix(a: Seq<char>, b: Seq<char>, i: int)
    requires
        0 <= i <= a.len(),
        i <= b.len(),
        a.take(i) == b.take(i),
    ensures
        seq_lt(a, b) == seq_lt(a.skip(i), b.skip(i)),
    decreases i,
{
    if i > 0 {
        assert(a[0] == a.take(i)[0]);
        assert(b[0] == b.take(i)[0]);
        assert(a.drop_first().take(i - 1) =~= a.take(i).drop_first());
        assert(b.drop_first().take(i - 1) =~= b.take(i).drop_first());
        lemma_seq_lt_common_prefix(a.drop_first(), b.drop_first(), i - 1);
        assert(a.drop_first().skip(i - 1) =~= a.skip(i));
        assert(b.drop_first().skip(i - 1) =~= b.skip(i));
    } else {
        assert(a.skip(0) =~= a);
        assert(b.skip(0) =~= b);
    }
}

pub proof fn lemma_seq_lt_irreflexive(a: Seq<char>)
    ensures
        !seq_lt(a, a),
    decreases a.len(),
{
    if a.len() > 0 {
        lemma_seq_lt_irreflexive(a.drop_first());
    }
}

pub proof fn lemma_seq_lt_asymmetric(a: Seq<char>, b: Seq<char>)
    ensures
        seq_lt(a, b) ==> !seq_lt(b, a),
    decreases a.len(),
{
    if a.len() > 0 && b.len() > 0 {
        lemma_seq_lt_asymmetric(a.drop_first(), b.drop_first());
    }
}

pub proof fn lemma_seq_lt_transitive(a: Seq<char>, b: Seq<char>, c: Seq<char>)
    requires
        seq_lt(a, b),
        seq_lt(b, c),
    ensures
        seq_lt(a, c),
    decreases a.len(),
{
    if a.len() > 0 && b.len() > 0 && c.len() > 0 {
        if a[0] == b[0] && b[0] == c[0] {
            lemma_seq_lt_transitive(a.drop_first(), b.drop_first(), c.drop_first());
        }
    }
}

/// Two different sequences are ordered one way or the other.
pub proof fn lemma_seq_lt_total(a: Seq<char>, b: Seq<char>)
    requires
        a != b,
    ensures
        seq_lt(a, b) || seq_lt(b, a),
    decreases a.len(),
{
    if a.len() > 0 && b.len() > 0 {
        if a[0] == b[0] {
            if a.drop_first() == b.drop_first() {
                assert(a =~= seq![a[0]] + a.drop_first());
                assert(b =~= seq![b[0]] + b.drop_first());
            }
            lemma_seq_lt_total(a.drop_first(), b.drop_first());
        }
    } else if a.len() == 0 && b.len() == 0 {
        assert(a =~= b);
    }
}

// ------------------------------------------------------------------------
// Numbers as text
// ------------------------------------------------------------------------

/// The decimal digit for `d < 10`.
pub open spec fn digit(d: nat) -> char {
    ((d + 0x30) as u32) as char
}

/// `n` in decimal, without leading zeros (`usize::to_string`).
pub open spec fn dec(n: nat) -> Seq<char>
    decreases n,
{
    if n < 10 {
        seq![digit(n)]
    } else {
        dec(n / 10).push(digit(n % 10))
    }
}

fn digit_char(d: usize) -> (r: char)
    requires
        d < 10,
    ensures
        r == digit(d as nat),
{
    if d == 0 {
        '0'
    } else if d == 1 {
        '1'
    } else if d == 2 {
        '2'
    } else if d == 3 {
        '3'
    } else if d == 4 {
        '4'
    } else if d == 5 {
        '5'
    } else if d == 6 {
        '6'
    } else if d == 7 {
        '7'
    } else if d == 8 {
        '8'
    } else {
        '9'
    }
}

/// `n` written in decimal.
pub fn decimal(n: usize) -> (r: String)
    ensures
        r@ == dec(n as nat),
    decreases n,
{
    if n < 10 {
        let mut s = String::new();
        push_char(&mut s, digit_char(n));
        assert(s@ =~= dec(n as nat));
        s
    } else {
        let mut s = decimal(n / 10);
        push_char(&mut s, digit_char(n % 10));
        s
    }
}


proof fn lemma_digit_injective(a: nat, b: nat)
    requires
        a < 10,
        b < 10,
        digit(a) == digit(b),
    ensures
        a == b,
{
    assert((digit(a) as u32) as int == a + 0x30);
    assert((digit(b) as u32) as int == b + 0x30);
}

proof fn lemma_dec_len(n: nat)
    ensures
        dec(n).len() >= 1,
        n >= 10 ==> dec(n).len() >= 2,
    decreases n,
{
    if n >= 10 {
        lemma_dec_len(n / 10);
    }
}

/// Different numbers are written differently: a decimal names one number.
pub proof fn lemma_dec_injective(a: nat, b: nat)
    requires
        dec(a) == dec(b),
    ensures
        a == b,
    decreases a,
{
    lemma_dec_len(a);
    lemma_dec_len(b);
    if a < 10 && b < 10 {
        assert(dec(a)[0] == digit(a) && dec(b)[0] == digit(b));
        lemma_digit_injective(a, b);
    } else if a >= 10 && b >= 10 {
        assert(dec(a).last() == digit(a % 10));
        assert(dec(b).last() == digit(b % 10));
        lemma_digit_injective(a % 10, b % 10);
        assert(dec(a).drop_last() =~= dec(a / 10));
        assert(dec(b).drop_last() =~= dec(b / 10));
        lemma_dec_injective(a / 10, b / 10);
        assert(a == b) by (nonlinear_arith)
            requires
                a % 10 == b % 10,
                a / 10 == b / 10,
        ;
    }
}


/// A number is written in decimal digits only.
pub proof fn lemma_dec_digits(n: nat)
    ensures
        dec(n).len() >= 1,
        forall|i: int| 0 <= i < dec(n).len() ==> 0x30 <= (#[trigger] dec(n)[i]) as u32 <= 0x39,
    decreases n,
{
    if n < 10 {
        assert((digit(n) as u32) as int == n + 0x30);
    } else {
        lemma_dec_digits(n / 10);
        let d = digit(n % 10);
        assert((d as u32) as int == n % 10 + 0x30);
        let r = dec(n);
        assert forall|i: int| 0 <= i < r.len() implies 0x30 <= (#[trigger] r[i]) as u32 <= 0x39 by {
            if i < dec(n / 10).len() {
                assert(r[i] == dec(n / 10)[i]);
            }
        }
    }
}


/// Splitting pieces joined by a separator character, none of them holding a
/// separator, gives them back.
pub proof fn lemma_split_join_sep(parts: Seq<Seq<char>>, sep: Sep, c: char)
    requires
        parts.len() >= 1,
        is_sep(sep, c),
        forall|k: int, i: int| 0 <= k < parts.len() && 0 <= i < parts[k].len() ==> !is_sep(sep, #[trigger] parts[k][i]),
    ensures
        split_by(join(parts, seq![c]), sep) == parts,
    decreases parts.len(),
{
    let last = parts.last();
    assert forall|i: int| 0 <= i < last.len() implies !is_sep(sep, #[trigger] last[i]) by {
        assert(parts[parts.len() - 1][i] == last[i]);
    }
    if parts.len() == 1 {
        lemma_split_by_whole(parts[0], sep);
        assert(seq![parts[0]] =~= parts);
    } else {
        let init = parts.drop_last();
        assert forall|k: int, i: int| 0 <= k < init.len() && 0 <= i < init[k].len() implies !is_sep(
            sep,
            #[trigger] init[k][i],
        ) by {
            assert(init[k] == parts[k]);
        }
        lemma_split_join_sep(init, sep, c);
        let j = join(init, seq![c]);
        let jc = j + seq![c];
        assert(jc.drop_last() =~= j);
        assert(split_by(jc, sep) == split_by(j, sep).push(Seq::<char>::empty()));
        lemma_split_by_extend(jc, last, sep);
        assert(join(parts, seq![c]) =~= jc + last);
        assert(Seq::<char>::empty() + last =~= last);
        assert(split_by(join(parts, seq![c]), sep) =~= parts);
    }
}

/// Keeping what a predicate holds of keeps everything when it holds of all.
pub proof fn lemma_filter_keeps_all<A>(s: Seq<A>, pred: spec_fn(A) -> bool)
    requires
        forall|i: int| 0 <= i < s.len() ==> pred(#[trigger] s[i]),
    ensures
        s.filter(pred) == s,
    decreases s.len(),
{
    if s.len() > 0 {
        let t = s.drop_last();
        assert forall|i: int| 0 <= i < t.len() implies pred(#[trigger] t[i]) by {
            assert(t[i] == s[i]);
        }
        lemma_filter_keeps_all(t, pred);
        assert(pred(s[s.len() - 1]));
        assert(s.last() == s[s.len() - 1]);
        assert(t.push(s.last()) =~= s);
        t.lemma_filter_push(s.last(), pred);
    }
}

/// The words of words joined by single spaces are those words.
pub proof fn lemma_words_of_joined(parts: Seq<Seq<char>>)
    requires
        parts.len() >= 1,
        forall|k: int| 0 <= k < parts.len() ==> (#[trigger] parts[k]).len() > 0,
        forall|k: int, i: int| 0 <= k < parts.len() && 0 <= i < parts[k].len() ==> !is_ws(#[trigger] parts[k][i]),
    ensures
        words(join(parts, seq![' '])) == parts,
{
    assert(is_ws(' '));
    lemma_split_join_sep(parts, Sep::Space, ' ');
    lemma_filter_keeps_all(parts, |w: Seq<char>| w.len() > 0);
}


/// Whether a line can stand in a text as it is: no line break in it and no
/// carriage return at its end.
pub open spec fn plain_line(l: Seq<char>) -> bool {
    !l.contains('\n') && !(l.len() > 0 && l.last() == '\r')
}

/// The lines of a text made of plain lines, each ended by `\n`, are those
/// lines.
pub proof fn lemma_lines_of(ls: Seq<Seq<char>>)
    requires
        forall|k: int| 0 <= k < ls.len() ==> plain_line(#[trigger] ls[k]),
    ensures
        lines(join(ls.push(Seq::<char>::empty()), seq!['\n'])) == ls,
{
    let parts = ls.push(Seq::<char>::empty());
    assert forall|k: int| 0 <= k < parts.len() implies !(#[trigger] parts[k]).contains('\n') by {
        if k < ls.len() {
            assert(parts[k] == ls[k]);
            assert(plain_line(ls[k]));
        } else {
            assert(parts[k] =~= Seq::<char>::empty());
        }
    }
    lemma_split_join(parts, '\n');
    let p = split_by(join(parts, seq!['\n']), Sep::Char('\n'));
    assert(p == parts);
    assert(p.take(p.len() - 1) =~= ls);
    assert forall|k: int| 0 <= k < ls.len() implies strip_cr(#[trigger] ls[k]) == ls[k] by {
        assert(plain_line(ls[k]));
    }
    assert(strip_all(ls) =~= ls);
}

/// A text with no whitespace at either end is its own trim.
pub proof fn lemma_trim_plain(s: Seq<char>)
    requires
        s.len() > 0,
        !is_ws(s[0]),
        !is_ws(s.last()),
    ensures
        trim(s) == s,
{
}

} // verus!
