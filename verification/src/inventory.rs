//! The envelope every collector fills, and the order its entries come in.

use vstd::prelude::*;

use crate::entry::{entry_views, lemma_entry_views_push, Entry, EntryView};
use crate::text::{
    chars_of, compare_chars, lemma_seq_lt_asymmetric, lemma_seq_lt_irreflexive,
    lemma_seq_lt_total, lemma_seq_lt_transitive, lowercase, owned, seq_lt, to_lower, Order,
};

verus! {

/// What a listing reports: the platform (`os`), a note on where the entries
/// come from, how many there are (`total`) and the entries themselves.
#[derive(Clone, Debug, PartialEq, Eq)]
pub struct Inventory {
    pub os: String,
    pub note: String,
    pub total: usize,
    pub entries: Vec<Entry>,
}

/// The key entries are listed by: the name, lowercased.
pub open spec fn name_key(e: EntryView) -> Seq<char> {
    lowercase(e.name)
}

/// The keys of a sequence of entries.
pub open spec fn keys_of(s: Seq<EntryView>) -> Seq<Seq<char>> {
    s.map_values(|e: EntryView| name_key(e))
}

/// Whether the element at index `i` comes before the one at `j` in a stable
/// sort by `keys`: a smaller key, or an equal key and an earlier position.
pub open spec fn goes_before(keys: Seq<Seq<char>>, i: int, j: int) -> bool {
    seq_lt(keys[i], keys[j]) || (keys[i] == keys[j] && i < j)
}

/// `perm` lists the indices `0..keys.len()` in stable-sorted order of `keys`:
/// every index in range and every index listed, each before the next.
pub open spec fn is_stable_order(perm: Seq<int>, keys: Seq<Seq<char>>) -> bool {
    &&& perm.len() == keys.len()
    &&& forall|i: int| 0 <= i < perm.len() ==> 0 <= #[trigger] perm[i] < keys.len()
    &&& forall|k: int| 0 <= k < keys.len() ==> #[trigger] perm.contains(k)
    &&& forall|i: int, j: int|
        0 <= i < j < perm.len() ==> goes_before(keys, #[trigger] perm[i], #[trigger] perm[j])
}

/// `r` is `s` sorted by lowercased name, entries with equal keys keeping their
/// relative order (what `sort_by_key` on the lowercased name does).
pub open spec fn sorted_by_name(s: Seq<EntryView>, r: Seq<EntryView>) -> bool {
    exists|perm: Seq<int>|
        is_stable_order(perm, keys_of(s)) && r == perm.map_values(|k: int| s[k])
}

/// Sorting by name loses and adds nothing: the listing has as many entries as
/// were collected, each collected entry is in it, and each entry in it was
/// collected.
pub proof fn lemma_sorted_is_permutation(s: Seq<EntryView>, r: Seq<EntryView>)
    requires
        sorted_by_name(s, r),
    ensures
        r.len() == s.len(),
        forall|k: int| 0 <= k < s.len() ==> r.contains(#[trigger] s[k]),
        forall|i: int| 0 <= i < r.len() ==> s.contains(#[trigger] r[i]),
{
    let perm = choose|perm: Seq<int>|
        is_stable_order(perm, keys_of(s)) && r == perm.map_values(|k: int| s[k]);
    assert forall|k: int| 0 <= k < s.len() implies r.contains(#[trigger] s[k]) by {
        assert(perm.contains(k));
        let m = choose|m: int| 0 <= m < perm.len() && perm[m] == k;
        assert(r[m] == s[perm[m]]);
    }
    assert forall|i: int| 0 <= i < r.len() implies s.contains(#[trigger] r[i]) by {
        assert(r[i] == s[perm[i]]);
    }
}

/// The listing is in order of lowercased name: no entry's key is smaller than
/// the key of an entry before it, and entries with equal keys keep the order
/// they were collected in.
pub proof fn lemma_sorted_in_order(s: Seq<EntryView>, r: Seq<EntryView>, i: int, j: int)
    requires
        sorted_by_name(s, r),
        0 <= i < j < r.len(),
    ensures
        !seq_lt(name_key(r[j]), name_key(r[i])),
{
    let perm = choose|perm: Seq<int>|
        is_stable_order(perm, keys_of(s)) && r == perm.map_values(|k: int| s[k]);
    let ks = keys_of(s);
    assert(goes_before(ks, perm[i], perm[j]));
    assert(r[i] == s[perm[i]] && r[j] == s[perm[j]]);
    assert(ks[perm[i]] == name_key(r[i]) && ks[perm[j]] == name_key(r[j]));
    lemma_seq_lt_asymmetric(name_key(r[i]), name_key(r[j]));
    lemma_seq_lt_irreflexive(name_key(r[i]));
}

pub proof fn lemma_goes_before_transitive(keys: Seq<Seq<char>>, a: int, b: int, c: int)
    requires
        goes_before(keys, a, b),
        goes_before(keys, b, c),
    ensures
        goes_before(keys, a, c),
{
    if seq_lt(keys[a], keys[b]) && seq_lt(keys[b], keys[c]) {
        lemma_seq_lt_transitive(keys[a], keys[b], keys[c]);
    }
}

pub proof fn lemma_goes_before_irreflexive(keys: Seq<Seq<char>>, a: int)
    ensures
        !goes_before(keys, a, a),
{
    lemma_seq_lt_irreflexive(keys[a]);
}

/// The order of a prefix `0..m` of the indices.
spec fn is_stable_prefix(order: Seq<usize>, keys: Seq<Seq<char>>, m: int) -> bool {
    &&& order.len() == m
    &&& forall|i: int| 0 <= i < order.len() ==> 0 <= #[trigger] order[i] < m
    &&& forall|k: usize| 0 <= k < m ==> #[trigger] order.contains(k)
    &&& forall|i: int, j: int|
        0 <= i < j < order.len() ==> goes_before(keys, #[trigger] order[i] as int, #[trigger] order[j] as int)
}

/// Inserting index `k` at `pos` keeps a stable prefix order.
proof fn lemma_insert_keeps_order(order: Seq<usize>, keys: Seq<Seq<char>>, k: usize, pos: int)
    requires
        k < keys.len(),
        is_stable_prefix(order, keys, k as int),
        0 <= pos <= order.len(),
        pos > 0 ==> !seq_lt(keys[k as int], keys[order[pos - 1] as int]),
        forall|q: int| pos <= q < order.len() ==> seq_lt(keys[k as int], keys[#[trigger] order[q] as int]),
    ensures
        is_stable_prefix(order.insert(pos, k), keys, k + 1),
{
    let o2 = order.insert(pos, k);
    let ki = k as int;
    assert(o2.len() == k + 1);
    assert forall|q: usize| 0 <= q < k + 1 implies #[trigger] o2.contains(q) by {
        if q < k {
            assert(order.contains(q));
            let m = choose|m: int| 0 <= m < order.len() && order[m] == q;
            if m < pos {
                assert(o2[m] == order[m]);
            } else {
                assert(o2[m + 1] == order[m]);
            }
        } else {
            assert(o2[pos] == k);
        }
    }
    assert forall|i: int| 0 <= i < o2.len() implies 0 <= #[trigger] o2[i] < k + 1 by {
        if i < pos {
            assert(o2[i] == order[i]);
        } else if i > pos {
            assert(o2[i] == order[i - 1]);
        }
    }
    if pos > 0 {
        let m = order[pos - 1] as int;
        if keys[m] != keys[ki] {
            lemma_seq_lt_total(keys[m], keys[ki]);
        }
        assert(goes_before(keys, m, ki));
    }
    assert forall|i: int, j: int| 0 <= i < j < o2.len() implies goes_before(
        keys,
        #[trigger] o2[i] as int,
        #[trigger] o2[j] as int,
    ) by {
        if j < pos {
            assert(o2[i] == order[i] && o2[j] == order[j]);
        } else if j == pos {
            assert(o2[i] == order[i]);
            assert(o2[j] == k);
            let m = order[pos - 1] as int;
            if i < pos - 1 {
                assert(goes_before(keys, order[i] as int, m));
                lemma_goes_before_transitive(keys, order[i] as int, m, ki);
            }
        } else if i > pos {
            assert(o2[i] == order[i - 1] && o2[j] == order[j - 1]);
        } else if i == pos {
            assert(o2[i] == k);
            assert(o2[j] == order[j - 1]);
            assert(seq_lt(keys[ki], keys[order[j - 1] as int]));
        } else {
            assert(o2[i] == order[i] && o2[j] == order[j - 1]);
        }
    }
}

/// The entries sorted by lowercased name; entries with equal keys keep their
/// relative order.
pub fn sort_by_name(entries: Vec<Entry>) -> (r: Vec<Entry>)
    ensures
        sorted_by_name(entry_views(entries@), entry_views(r@)),
{
    let n = entries.len();
    let ghost s = entry_views(entries@);
    let ghost ks = keys_of(s);
    let mut keys: Vec<Vec<char>> = Vec::new();
    let mut i: usize = 0;
    while i < n
        invariant
            n == entries.len(),
            s == entry_views(entries@),
            ks == keys_of(s),
            i <= n,
            keys.len() == i,
            forall|k: int| 0 <= k < i ==> #[trigger] keys@[k]@ == ks[k],
        decreases n - i,
    {
        let low = to_lower(entries[i].name.as_str());
        let key = chars_of(low.as_str());
        keys.push(key);
        i += 1;
    }
    let mut order: Vec<usize> = Vec::new();
    let mut k: usize = 0;
    while k < n
        invariant
            n == entries.len(),
            ks.len() == n,
            keys.len() == n,
            forall|q: int| 0 <= q < n ==> #[trigger] keys@[q]@ == ks[q],
            k <= n,
            is_stable_prefix(order@, ks, k as int),
        decreases n - k,
    {
        let mut pos: usize = order.len();
        loop
            invariant
                n == entries.len(),
                ks.len() == n,
                keys.len() == n,
                forall|q: int| 0 <= q < n ==> #[trigger] keys@[q]@ == ks[q],
                k < n,
                is_stable_prefix(order@, ks, k as int),
                pos <= order.len(),
                forall|q: int| pos <= q < order.len() ==> seq_lt(ks[k as int], ks[#[trigger] order@[q] as int]),
            ensures
                pos <= order.len(),
                pos > 0 ==> !seq_lt(ks[k as int], ks[order@[pos - 1] as int]),
                forall|q: int| pos <= q < order.len() ==> seq_lt(ks[k as int], ks[#[trigger] order@[q] as int]),
            decreases pos,
        {
            if pos == 0 {
                break;
            }
            let other = order[pos - 1];
            let c = compare_chars(keys[k].as_slice(), keys[other].as_slice());
            match c {
                Order::Less => {
                    pos -= 1;
                },
                _ => {
                    break;
                },
            }
        }
        proof {
            lemma_insert_keeps_order(order@, ks, k, pos as int);
        }
        order.insert(pos, k);
        k += 1;
    }
    let mut r: Vec<Entry> = Vec::new();
    let mut j: usize = 0;
    let ghost perm = order@.map_values(|x: usize| x as int);
    while j < n
        invariant
            n == entries.len(),
            s == entry_views(entries@),
            is_stable_prefix(order@, ks, n as int),
            perm == order@.map_values(|x: usize| x as int),
            j <= n,
            entry_views(r@) == perm.take(j as int).map_values(|q: int| s[q]),
        decreases n - j,
    {
        let e = entries[order[j]].duplicate();
        proof {
            lemma_entry_views_push(r@, e);
            assert(perm.take(j + 1).map_values(|q: int| s[q]) =~= perm.take(j as int).map_values(
                |q: int| s[q],
            ).push(s[perm[j as int]]));
        }
        r.push(e);
        j += 1;
    }
    proof {
        assert(perm.take(n as int) =~= perm);
        assert forall|a: int, b: int| 0 <= a < b < perm.len() implies goes_before(
            ks,
            #[trigger] perm[a],
            #[trigger] perm[b],
        ) by {
            assert(goes_before(ks, order@[a] as int, order@[b] as int));
        }
        assert forall|q: int| 0 <= q < ks.len() implies #[trigger] perm.contains(q) by {
            assert(order@.contains(q as usize));
            let m = choose|m: int| 0 <= m < order@.len() && order@[m] == q as usize;
            assert(perm[m] == q);
        }
        assert(is_stable_order(perm, ks));
    }
    r
}


/// What a listing says on a platform with no collector: that platform's name
/// (as `std::env::consts::OS` gives it), a note saying so, and no entries.
pub fn unsupported_listing(os: &str) -> (r: Inventory)
    ensures
        r.os@ == os@,
        r.note@ == "installed-program listing is only implemented for Windows and Linux"@,
        r.total == 0,
        r.entries@.len() == 0,
{
    Inventory {
        os: owned(os),
        note: owned("installed-program listing is only implemented for Windows and Linux"),
        total: 0,
        entries: Vec::new(),
    }
}

} // verus!
