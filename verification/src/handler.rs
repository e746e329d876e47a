//! The module itself: what it holds between calls, and what each call does.
//!
//! A call is decided here and carried out by the host: enumerating the
//! machine, opening a path, copying to the clipboard and asking a report
//! provider are the host's part; what to show, what to open and what to ask
//! for is this module's.

use vstd::prelude::*;

use crate::entry::{
    copy_entries, entry_views, is_open_of, open_decision, open_kind, open_label_of, resolved_path,
    row_cells, row_of, Entry, EntryView, OnDisk, OpenAction, OpenLabel, Resolution,
};
use crate::i18n::{chosen, choice, lang_of, msg, parse_lang, text, tr, Lang, Msg, CONTENT, FORMATS, SCOPES};
use crate::inventory::Inventory;
use crate::report::{is_report_of, report_config, report_config_v, report_spec, ReportSpec};
use crate::text::{
    chars_of, contains_chars, contains_seq, copy_string, dec, decimal, eq_str, join, join_strings,
    lemma_dec_injective, lowercase, owned, push_str, string_views, to_lower,
};
use crate::ui::{
    menu_views, menus_views, method_name, notice_view, parse_method, rows_views, with_notice, Level,
    MenuItemView, Method, Notice, NoticeView, Screen, Window, WindowView,
};
use crate::view::{
    about_v, about_view, idle_view, idle_view_v, results_v, results_view, row_menu_for, row_menu_v,
    stale_view, stale_view_v, PAGE_SIZE,
};

verus! {

/// A row on the page shown last: the id it was shown with (its position in
/// the scan, in decimal) and its entry.
#[derive(Clone, Debug, PartialEq, Eq)]
pub struct Shown {
    pub id: String,
    pub entry: Entry,
}

/// What the module remembers between calls: whether the user has scanned this
/// session, the search text and page shown last, every entry of the last scan,
/// and the rows of the page shown last (so a row action can find its entry).
#[derive(Debug)]
pub struct Programs {
    pub scanned: bool,
    pub last_query: String,
    pub last_page: usize,
    pub last_entries: Vec<Entry>,
    pub last: Vec<Shown>,
}

pub struct ProgramsView {
    pub scanned: bool,
    pub last_query: Seq<char>,
    pub last_page: usize,
    pub last_entries: Seq<EntryView>,
    pub last: Seq<(Seq<char>, EntryView)>,
}

pub open spec fn shown_views(s: Seq<Shown>) -> Seq<(Seq<char>, EntryView)> {
    s.map_values(|x: Shown| (x.id@, x.entry@))
}

impl View for Programs {
    type V = ProgramsView;

    open spec fn view(&self) -> ProgramsView {
        ProgramsView {
            scanned: self.scanned,
            last_query: self.last_query@,
            last_page: self.last_page,
            last_entries: entry_views(self.last_entries@),
            last: shown_views(self.last@),
        }
    }
}

impl Default for Programs {
    /// Nothing scanned yet.
    fn default() -> (r: Self)
        ensures
            !r@.scanned,
            r@.last_query.len() == 0,
            r@.last_page == 0,
            r@.last_entries.len() == 0,
            r@.last.len() == 0,
    {
        Programs {
            scanned: false,
            last_query: String::new(),
            last_page: 0,
            last_entries: Vec::new(),
            last: Vec::new(),
        }
    }
}

// ------------------------------------------------------------------------
// Filtering and paging
// ------------------------------------------------------------------------

/// Whether an entry matches a lowercased query: every entry matches the empty
/// query; otherwise the query must occur in the entry's six cells, joined by
/// spaces and lowercased.
pub open spec fn matches(q: Seq<char>, d: EntryView) -> bool {
    q.len() == 0 || contains_seq(lowercase(join(row_of(d), " "@)), q)
}

/// The positions of the entries that match, in order.
pub open spec fn filtered(s: Seq<EntryView>, q: Seq<char>) -> Seq<int>
    decreases s.len(),
{
    if s.len() == 0 {
        Seq::empty()
    } else {
        let f = filtered(s.drop_last(), q);
        if matches(q, s.last()) {
            f.push(s.len() - 1)
        } else {
            f
        }
    }
}

/// How many pages `total` matches take: at least one.
pub open spec fn page_count_of(total: int) -> int {
    if total == 0 {
        1
    } else {
        (total + PAGE_SIZE - 1) / (PAGE_SIZE as int)
    }
}

/// The page shown for a requested page: the last page when it asks for more.
pub open spec fn clamp_page(page: int, count: int) -> int {
    if page < count - 1 {
        page
    } else {
        count - 1
    }
}

/// Whether `w` and the new state `new` are what showing `page` of the
/// entries `s` matching `query` gives from state `old`: the page is clamped
/// to the pages there are and remembered; the rows of that page (100 per
/// page, in scan order, each with its position in the scan as id) are
/// remembered and put on screen, each with its right-click menu (whose open
/// action follows what the disk said of its location, `disk[i]` being the
/// answer for `s[i]`); nothing else changes.
pub open spec fn is_render(
    old: ProgramsView,
    new: ProgramsView,
    lang: Lang,
    s: Seq<EntryView>,
    disk: Seq<OnDisk>,
    query: Seq<char>,
    page: int,
    report: bool,
    w: WindowView,
) -> bool {
    let f = filtered(s, lowercase(query));
    let t = f.len() as int;
    let c = page_count_of(t);
    let p = clamp_page(page, c);
    let st = p * PAGE_SIZE;
    let en = if st + PAGE_SIZE < t {
        st + PAGE_SIZE
    } else {
        t
    };
    let n = (en - st) as nat;
    &&& new.scanned == old.scanned
    &&& new.last_query == old.last_query
    &&& new.last_entries == old.last_entries
    &&& new.last_page == p
    &&& new.last == Seq::new(n, |k: int| (dec(f[st + k] as nat), s[f[st + k]]))
    &&& w == results_v(
        lang,
        query,
        Seq::new(n, |k: int| row_of(s[f[st + k]])),
        Seq::new(n, |k: int| dec(f[st + k] as nat)),
        Seq::new(n, |k: int| row_menu_v(lang, s[f[st + k]], open_label_of(s[f[st + k]], disk[f[st + k]]))),
        st,
        en,
        t,
        p,
        c,
        report,
    )
}

/// The search looks at every column: an empty query keeps every entry, and
/// any other keeps an entry exactly when it occurs, lowercased, in the entry's
/// name, version, publisher, source, scope and location, joined by spaces and
/// lowercased.
pub proof fn lemma_search_covers_every_column(q: Seq<char>, d: EntryView)
    ensures
        matches(q, d) == (q.len() == 0 || contains_seq(
            lowercase(
                d.name + " "@ + d.version + " "@ + d.publisher + " "@ + d.source + " "@ + d.scope + " "@
                    + d.location,
            ),
            q,
        )),
{
    let sp = " "@;
    let r = row_of(d);
    assert(r.drop_last() =~= seq![d.name, d.version, d.publisher, d.source, d.scope]);
    assert(seq![d.name, d.version, d.publisher, d.source, d.scope].drop_last() =~= seq![
        d.name,
        d.version,
        d.publisher,
        d.source,
    ]);
    assert(seq![d.name, d.version, d.publisher, d.source].drop_last() =~= seq![d.name, d.version, d.publisher]);
    assert(seq![d.name, d.version, d.publisher].drop_last() =~= seq![d.name, d.version]);
    assert(seq![d.name, d.version].drop_last() =~= seq![d.name]);
    assert(join(seq![d.name], sp) == d.name);
    assert(join(seq![d.name, d.version], sp) == d.name + sp + d.version);
    assert(join(seq![d.name, d.version, d.publisher], sp) == d.name + sp + d.version + sp + d.publisher);
    assert(join(seq![d.name, d.version, d.publisher, d.source], sp) == d.name + sp + d.version + sp
        + d.publisher + sp + d.source);
    assert(join(seq![d.name, d.version, d.publisher, d.source, d.scope], sp) == d.name + sp + d.version + sp
        + d.publisher + sp + d.source + sp + d.scope);
    assert(join(r, sp) == d.name + sp + d.version + sp + d.publisher + sp + d.source + sp + d.scope + sp
        + d.location);
}

/// The positions the filter keeps are exactly those of the entries that match,
/// in increasing order.
pub proof fn lemma_filtered_exact(s: Seq<EntryView>, q: Seq<char>)
    ensures
        forall|i: int| 0 <= i < filtered(s, q).len() ==> 0 <= #[trigger] filtered(s, q)[i] < s.len()
            && matches(q, s[filtered(s, q)[i]]),
        forall|i: int, j: int| 0 <= i < j < filtered(s, q).len() ==> #[trigger] filtered(s, q)[i] < #[trigger] filtered(s, q)[j],
        forall|k: int| 0 <= k < s.len() && matches(q, #[trigger] s[k]) ==> filtered(s, q).contains(k),
    decreases s.len(),
{
    if s.len() > 0 {
        let t = s.drop_last();
        lemma_filtered_exact(t, q);
        let ft = filtered(t, q);
        let f = filtered(s, q);
        assert forall|i: int| 0 <= i < f.len() implies 0 <= #[trigger] f[i] < s.len() && matches(q, s[f[i]]) by {
            if i < ft.len() {
                assert(f[i] == ft[i]);
                assert(s[ft[i]] == t[ft[i]]);
            }
        }
        assert forall|i: int, j: int| 0 <= i < j < f.len() implies #[trigger] f[i] < #[trigger] f[j] by {
            if j < ft.len() {
                assert(f[i] == ft[i] && f[j] == ft[j]);
            } else {
                assert(f[i] == ft[i]);
            }
        }
        assert forall|k: int| 0 <= k < s.len() && matches(q, #[trigger] s[k]) implies f.contains(k) by {
            if k < s.len() - 1 {
                assert(s[k] == t[k]);
                assert(ft.contains(k));
                let m = choose|m: int| 0 <= m < ft.len() && ft[m] == k;
                assert(f[m] == ft[m]);
            } else {
                assert(f[ft.len() as int] == k);
            }
        }
    }
}

/// An empty search shows every entry: the filter keeps every position.
pub proof fn lemma_empty_query_keeps_all(s: Seq<EntryView>, q: Seq<char>)
    requires
        q.len() == 0,
    ensures
        filtered(s, q) == Seq::new(s.len(), |i: int| i),
    decreases s.len(),
{
    if s.len() > 0 {
        lemma_empty_query_keeps_all(s.drop_last(), q);
        assert(filtered(s, q) =~= Seq::new(s.len(), |i: int| i));
    } else {
        assert(filtered(s, q) =~= Seq::new(s.len(), |i: int| i));
    }
}

/// Paging splits the matches without loss or overlap: the `k`-th match is
/// on page `k / 100` and on no other, and that page exists.
pub proof fn lemma_match_on_one_page(t: int, k: int)
    requires
        0 <= k < t,
    ensures
        0 <= k / 100 < page_count_of(t),
        (k / 100) * 100 <= k < (k / 100) * 100 + 100,
        forall|q: int| 0 <= q < page_count_of(t) && #[trigger] (q * 100) <= k < q * 100 + 100 ==> q == k / 100,
{
    lemma_pages(t);
    assert(0 <= k / 100 < page_count_of(t)) by (nonlinear_arith)
        requires
            0 <= k < t,
            page_count_of(t) == (t + 99) / 100,
    ;
    assert((k / 100) * 100 <= k < (k / 100) * 100 + 100) by (nonlinear_arith)
        requires
            0 <= k,
    ;
    assert forall|q: int| 0 <= q < page_count_of(t) && #[trigger] (q * 100) <= k < q * 100 + 100 implies q == k / 100 by {
        assert(q == k / 100) by (nonlinear_arith)
            requires
                0 <= q,
                q * 100 <= k < q * 100 + 100,
        ;
    }
}

/// Every page but the last shows a full hundred rows; the last shows the
/// rest, at least one when anything matches.
pub proof fn lemma_page_sizes(t: int, p: int)
    requires
        t > 0,
        0 <= p < page_count_of(t),
    ensures
        p < page_count_of(t) - 1 ==> p * 100 + 100 <= t,
        p == page_count_of(t) - 1 ==> p * 100 < t <= p * 100 + 100,
{
    lemma_pages(t);
    assert(p < page_count_of(t) - 1 ==> p * 100 + 100 <= t) by (nonlinear_arith)
        requires
            page_count_of(t) == (t + 99) / 100,
            0 <= p,
            t > 0,
    ;
    assert(p == page_count_of(t) - 1 ==> p * 100 < t <= p * 100 + 100) by (nonlinear_arith)
        requires
            page_count_of(t) == (t + 99) / 100,
            0 <= p,
            t > 0,
    ;
}

/// Whether an entry matches the lowercased query `q`.
fn entry_matches(q: &Vec<char>, d: &Entry) -> (r: bool)
    ensures
        r == matches(q@, d@),
{
    if q.len() == 0 {
        return true;
    }
    let cells = row_cells(d);
    let joined = join_strings(&cells, " ");
    let low = to_lower(joined.as_str());
    let hay = chars_of(low.as_str());
    contains_chars(hay.as_slice(), q.as_slice())
}

proof fn lemma_pages(t: int)
    requires
        t >= 0,
    ensures
        page_count_of(t) >= 1,
        t > 0 ==> (page_count_of(t) - 1) * 100 < t,
        page_count_of(t) <= t / 100 + 1,
{
    if t > 0 {
        assert((page_count_of(t) - 1) * 100 < t) by (nonlinear_arith)
            requires
                page_count_of(t) == (t + 99) / 100,
                t > 0,
        ;
        assert(page_count_of(t) <= t / 100 + 1) by (nonlinear_arith)
            requires
                page_count_of(t) == (t + 99) / 100,
                t > 0,
        ;
        assert(page_count_of(t) >= 1) by (nonlinear_arith)
            requires
                page_count_of(t) == (t + 99) / 100,
                t > 0,
        ;
    }
}

impl Programs {
    /// The results view for `page` of the entries matching `query_raw`: the
    /// entries are filtered (keeping each one's position in `entries`, so row
    /// ids stay stable across pages), the page is clamped and its rows are
    /// remembered for row actions. `disk[i]` is what the disk said of the
    /// location of `entries[i]`.
    pub fn render(
        &mut self,
        lang: &str,
        entries: &[Entry],
        disk: &[OnDisk],
        query_raw: &str,
        page: usize,
        report: bool,
    ) -> (r: Window)
        requires
            disk.len() == entries.len(),
        ensures
            is_render(
                old(self)@,
                final(self)@,
                lang_of(lang@),
                entry_views(entries@),
                disk@,
                query_raw@,
                page as int,
                report,
                r@,
            ),
    {
        let ghost ev = entry_views(entries@);
        let low = to_lower(query_raw);
        let q = chars_of(low.as_str());
        let ghost qv = lowercase(query_raw@);
        let mut hits: Vec<usize> = Vec::new();
        let mut i: usize = 0;
        while i < entries.len()
            invariant
                ev == entry_views(entries@),
                q@ == qv,
                i <= entries.len(),
                hits@.len() == filtered(ev.take(i as int), qv).len(),
                forall|k: int| 0 <= k < hits@.len() ==> #[trigger] hits@[k] as int == filtered(ev.take(i as int), qv)[k],
                forall|k: int| 0 <= k < hits@.len() ==> #[trigger] hits@[k] < i,
            decreases entries.len() - i,
        {
            assert(ev.take(i + 1).drop_last() =~= ev.take(i as int));
            assert(ev.take(i + 1).last() == ev[i as int]);
            if entry_matches(&q, &entries[i]) {
                hits.push(i);
            }
            i += 1;
        }
        assert(ev.take(entries.len() as int) =~= ev);
        let ghost f = filtered(ev, qv);
        let total = hits.len();
        proof {
            lemma_pages(total as int);
        }
        let page_count = if total == 0 {
            1
        } else {
            total / PAGE_SIZE + if total % PAGE_SIZE != 0 {
                1
            } else {
                0
            }
        };
        assert(page_count == page_count_of(total as int)) by (nonlinear_arith)
            requires
                page_count == (if total == 0 {
                    1
                } else {
                    total / 100 + if total % 100 != 0 {
                        1int
                    } else {
                        0
                    }
                }),
                page_count_of(total as int) == (if total == 0 {
                    1
                } else {
                    (total + 99) / 100
                }),
        ;
        let page = if page < page_count - 1 {
            page
        } else {
            page_count - 1
        };
        self.last_page = page;
        proof {
            if total > 0 {
                assert(page * 100 <= (page_count - 1) * 100) by (nonlinear_arith)
                    requires
                        page <= page_count - 1,
                ;
            }
        }
        let start = page * PAGE_SIZE;
        let end = if total - start > PAGE_SIZE {
            start + PAGE_SIZE
        } else {
            total
        };
        let mut last: Vec<Shown> = Vec::new();
        let mut rows: Vec<Vec<String>> = Vec::new();
        let mut ids: Vec<String> = Vec::new();
        let mut menus: Vec<Vec<crate::ui::MenuItem>> = Vec::new();
        let l = parse_lang(lang);
        let mut k: usize = start;
        while k < end
            invariant
                ev == entry_views(entries@),
                hits@.len() == f.len(),
                forall|j: int| 0 <= j < hits@.len() ==> #[trigger] hits@[j] as int == f[j],
                forall|j: int| 0 <= j < hits@.len() ==> #[trigger] hits@[j] < entries@.len(),
                start <= k <= end <= total == hits.len(),
                l == lang_of(lang@),
                shown_views(last@) == Seq::new((k - start) as nat, |j: int| (dec(f[start + j] as nat), ev[f[start + j]])),
                rows_views(rows@) == Seq::new((k - start) as nat, |j: int| row_of(ev[f[start + j]])),
                string_views(ids@) == Seq::new((k - start) as nat, |j: int| dec(f[start + j] as nat)),
                disk.len() == entries.len(),
                menus_views(menus@) == Seq::new(
                    (k - start) as nat,
                    |j: int| row_menu_v(l, ev[f[start + j]], open_label_of(ev[f[start + j]], disk@[f[start + j]])),
                ),
            decreases end - k,
        {
            let orig = hits[k];
            let d = &entries[orig];
            assert(d@ == ev[f[k as int]]);
            let rid = decimal(orig);
            let ghost olds = shown_views(last@);
            let ghost oldr = rows_views(rows@);
            let ghost oldi = string_views(ids@);
            let ghost oldm = menus_views(menus@);
            last.push(Shown { id: copy_string(&rid), entry: d.duplicate() });
            assert(shown_views(last@) =~= Seq::new((k + 1 - start) as nat, |j: int| (dec(f[start + j] as nat), ev[f[start + j]]))) by {
                assert(shown_views(last@) =~= olds.push((dec(f[k as int] as nat), ev[f[k as int]])));
            }
            rows.push(row_cells(d));
            assert(rows_views(rows@) =~= Seq::new((k + 1 - start) as nat, |j: int| row_of(ev[f[start + j]]))) by {
                assert(rows_views(rows@) =~= oldr.push(row_of(ev[f[k as int]])));
            }
            ids.push(rid);
            assert(string_views(ids@) =~= Seq::new((k + 1 - start) as nat, |j: int| dec(f[start + j] as nat))) by {
                assert(string_views(ids@) =~= oldi.push(dec(f[k as int] as nat)));
            }
            let m = row_menu_for(lang, d, disk[orig]);
            menus.push(m);
            assert(menus_views(menus@) =~= Seq::new(
                (k + 1 - start) as nat,
                |j: int| row_menu_v(l, ev[f[start + j]], open_label_of(ev[f[start + j]], disk@[f[start + j]])),
            )) by {
                assert(menus_views(menus@) =~= oldm.push(row_menu_v(l, ev[f[k as int]], open_label_of(ev[f[k as int]], disk@[f[k as int]]))));
            }
            k += 1;
        }
        self.last = last;
        let ghost rv = rows_views(rows@);
        let ghost iv = string_views(ids@);
        let ghost mv = menus_views(menus@);
        proof {
            if total > 0 {
                assert(start < total);
            }
            if page_count > 1 {
                assert(page <= usize::MAX - 2);
            }
        }
        let r = results_view(lang, query_raw, rows, ids, menus, (start, end, total), (page, page_count), report);
        assert(r@ == results_v(
            l,
            query_raw@,
            rv,
            iv,
            mv,
            start as int,
            end as int,
            total as int,
            page as int,
            page_count as int,
            report,
        ));
        r
    }
}

/// The entry the page shown last showed with row id `id` (the first such row).
pub open spec fn lookup(last: Seq<(Seq<char>, EntryView)>, id: Seq<char>) -> Option<EntryView>
    decreases last.len(),
{
    if last.len() == 0 {
        None
    } else if last[0].0 == id {
        Some(last[0].1)
    } else {
        lookup(last.drop_first(), id)
    }
}

proof fn lemma_lookup_distinct(last: Seq<(Seq<char>, EntryView)>, k: int)
    requires
        0 <= k < last.len(),
        forall|j: int| 0 <= j < k ==> #[trigger] last[j].0 != last[k].0,
    ensures
        lookup(last, last[k].0) == Some(last[k].1),
    decreases k,
{
    if k > 0 {
        let t = last.drop_first();
        assert(last[0].0 != last[k].0);
        assert(t[k - 1] == last[k]);
        assert forall|j: int| 0 <= j < k - 1 implies #[trigger] t[j].0 != t[k - 1].0 by {
            assert(t[j] == last[j + 1]);
        }
        lemma_lookup_distinct(t, k - 1);
    }
}

/// A row action finds the row it came from: on the page shown last, each row
/// carries the position of its entry in the scan as its id (whatever the page),
/// and that id leads back to that entry.
pub proof fn lemma_row_id_finds_its_row(
    old: ProgramsView,
    new: ProgramsView,
    lang: Lang,
    s: Seq<EntryView>,
    disk: Seq<OnDisk>,
    query: Seq<char>,
    page: int,
    report: bool,
    w: WindowView,
    k: int,
)
    requires
        is_render(old, new, lang, s, disk, query, page, report, w),
        page >= 0,
        0 <= k < new.last.len(),
    ensures
        exists|i: int| 0 <= i < s.len() && #[trigger] new.last[k] == (dec(i as nat), s[i]),
        lookup(new.last, new.last[k].0) == Some(new.last[k].1),
{
    let f = filtered(s, lowercase(query));
    let t = f.len() as int;
    let c = page_count_of(t);
    let p = clamp_page(page, c);
    let st = p * PAGE_SIZE;
    let en = if st + PAGE_SIZE < t {
        st + PAGE_SIZE
    } else {
        t
    };
    lemma_pages(t);
    lemma_filtered_exact(s, lowercase(query));
    assert(0 <= p < c);
    if t > 0 {
        assert(st <= (c - 1) * 100) by (nonlinear_arith)
            requires
                st == p * 100,
                p <= c - 1,
        ;
    }
    assert(0 <= st) by (nonlinear_arith)
        requires
            st == p * 100,
            p >= 0,
    ;
    assert(st <= en <= t);
    let n = (en - st) as nat;
    assert(new.last.len() == n);
    assert(new.last[k] == (dec(f[st + k] as nat), s[f[st + k]]));
    assert(0 <= f[st + k] < s.len());
    assert forall|j: int| 0 <= j < k implies #[trigger] new.last[j].0 != new.last[k].0 by {
        assert(new.last[j] == (dec(f[st + j] as nat), s[f[st + j]]));
        assert(f[st + j] < f[st + k]);
        if dec(f[st + j] as nat) == dec(f[st + k] as nat) {
            lemma_dec_injective(f[st + j] as nat, f[st + k] as nat);
        }
    }
    lemma_lookup_distinct(new.last, k);
}

/// The parameters a call carries: the user's language, whether a report
/// provider is loaded, the search text, the page asked for, the row id acted
/// on (and whether the action came from that entry's own tab), and the report
/// form's three labels.
#[derive(Clone, Debug, PartialEq, Eq)]
pub struct Call {
    pub lang: String,
    pub report: bool,
    pub query: String,
    pub page: usize,
    pub id: String,
    pub in_tab: bool,
    pub format: String,
    pub content: String,
    pub scope: String,
}

/// What a call comes to.
#[derive(Clone, Debug, PartialEq, Eq)]
pub enum Reply {
    /// Show this screen.
    Show(Window),
    /// Answer with the inventory that was enumerated for the call.
    Listing,
    /// Open this target with the host, if there is one, then answer with what
    /// `acted` shows for the outcome.
    Open(Option<OpenAction>),
    /// Show this path in the file manager, once resolved, if there is one,
    /// then answer with what `acted` shows for the outcome.
    Reveal(Option<Resolution>),
    /// Copy this path to the clipboard, once resolved, if there is one, then
    /// answer with what `acted` shows for the outcome.
    CopyPath(Option<Resolution>),
    /// Ask a report provider to build this report, and show its outcome.
    Report(ReportSpec),
    /// There is no such method: fail with this message.
    NoMethod(String),
}

/// What `resolved_path` answers for an entry.
pub open spec fn is_resolution_of(d: EntryView, r: Resolution) -> bool {
    &&& d.location.len() > 0 ==> (r matches Resolution::Recorded(p) && p@ == d.location)
    &&& d.location.len() == 0 ==> (r matches Resolution::FromPackage { source, name } && source@
        == d.source && name@ == d.name)
}

/// The details of the row shown with id `id` on `screen`, given what the disk
/// said of that row's location, or, when that row is no longer there, the view
/// saying so.
pub open spec fn about_answer(
    last: Seq<(Seq<char>, EntryView)>,
    lang: Lang,
    id: Seq<char>,
    screen: Screen,
    disk: OnDisk,
    w: WindowView,
) -> bool {
    match lookup(last, id) {
        Some(d) => w == about_v(lang, d, id, open_label_of(d, disk), screen),
        None => w == stale_view_v(lang),
    }
}

/// The notice a scan's results carry: how many programs it found.
pub open spec fn scan_notice(lang: Lang, total: nat) -> NoticeView {
    NoticeView {
        level: Level::Done,
        text: msg(lang, Msg::ScannedOpen) + dec(total) + msg(lang, Msg::ScannedClose),
    }
}

/// A row action the host carries out.
#[derive(Clone, Copy, Debug, PartialEq, Eq)]
pub enum RowAction {
    Open,
    Reveal,
    Copy,
}

/// How a row action went: it was done; there was nothing to act on (no target
/// on disk, no path); or no clipboard tool took the path.
#[derive(Clone, Copy, Debug, PartialEq, Eq)]
pub enum Outcome {
    Done,
    NothingThere,
    NoClipboard,
}

/// What a row action says once done: a copy says so; an open or a reveal
/// shows itself and says nothing; anything that went wrong says what.
pub open spec fn action_notice(lang: Lang, action: RowAction, outcome: Outcome) -> Option<NoticeView> {
    match outcome {
        Outcome::Done => if action == RowAction::Copy {
            Some(NoticeView { level: Level::Done, text: msg(lang, Msg::Copied) })
        } else {
            None
        },
        Outcome::NothingThere => if action == RowAction::Copy {
            Some(NoticeView { level: Level::Error, text: msg(lang, Msg::NothingToCopy) })
        } else {
            Some(NoticeView { level: Level::Error, text: msg(lang, Msg::NothingToOpen) })
        },
        Outcome::NoClipboard => Some(NoticeView { level: Level::Error, text: msg(lang, Msg::NoClipboard) }),
    }
}

/// The notice the details of the row with id `id` carry by themselves: the
/// one saying it is gone, when it is.
pub open spec fn about_notice(last: Seq<(Seq<char>, EntryView)>, lang: Lang, id: Seq<char>) -> Option<
    NoticeView,
> {
    if lookup(last, id) is None {
        Some(NoticeView { level: Level::Error, text: msg(lang, Msg::Gone) })
    } else {
        None
    }
}

/// `a` when there is one, else `b`.
pub open spec fn either(a: Option<NoticeView>, b: Option<NoticeView>) -> Option<NoticeView> {
    if a is Some {
        a
    } else {
        b
    }
}

fn action_notice_of(l: Lang, action: RowAction, outcome: Outcome) -> (r: Option<Notice>)
    ensures
        notice_view(r) == action_notice(l, action, outcome),
{
    match outcome {
        Outcome::Done => match action {
            RowAction::Copy => Some(Notice { level: Level::Done, text: text(l, Msg::Copied) }),
            _ => None,
        },
        Outcome::NothingThere => match action {
            RowAction::Copy => Some(Notice { level: Level::Error, text: text(l, Msg::NothingToCopy) }),
            _ => Some(Notice { level: Level::Error, text: text(l, Msg::NothingToOpen) }),
        },
        Outcome::NoClipboard => Some(Notice { level: Level::Error, text: text(l, Msg::NoClipboard) }),
    }
}

/// What the state and the reply of a call of method `m` are, from state
/// `old`, with parameters `call`, (for a scan) the enumerated `listing`, what
/// the disk said of each entry's location (`disk`: the listing's for a scan,
/// the saved entries' otherwise) and of the location of the row the call
/// names (`row`).
pub open spec fn is_call(
    m: Method,
    old: ProgramsView,
    new: ProgramsView,
    call: Call,
    listing: Option<Inventory>,
    disk: Seq<OnDisk>,
    row: OnDisk,
    r: Reply,
) -> bool {
    let lang = lang_of(call.lang@);
    match m {
        Method::Ui => if old.scanned {
            r matches Reply::Show(w) && is_render(
                old,
                new,
                lang,
                old.last_entries,
                disk,
                old.last_query,
                old.last_page as int,
                call.report,
                w@,
            )
        } else {
            r matches Reply::Show(w) && w@ == idle_view_v(lang) && new == old
        },
        Method::Scan => {
            let inv = listing.unwrap();
            let mid = ProgramsView {
                scanned: true,
                last_query: call.query@,
                last_page: old.last_page,
                last_entries: entry_views(inv.entries@),
                last: old.last,
            };
            r matches Reply::Show(w) && is_render(
                mid,
                new,
                lang,
                entry_views(inv.entries@),
                disk,
                call.query@,
                0,
                call.report,
                with_notice(w@, None),
            ) && w@.notice == Some(scan_notice(lang, inv.entries@.len()))
        },
        Method::Page => {
            let mid = ProgramsView {
                scanned: old.scanned,
                last_query: call.query@,
                last_page: old.last_page,
                last_entries: old.last_entries,
                last: old.last,
            };
            r matches Reply::Show(w) && is_render(
                mid,
                new,
                lang,
                old.last_entries,
                disk,
                call.query@,
                call.page as int,
                call.report,
                w@,
            )
        },
        Method::List => r is Listing && new == old,
        Method::About => new == old && (r matches Reply::Show(w) && about_answer(
            old.last,
            lang,
            call.id@,
            Screen::Modal,
            row,
            w@,
        )),
        Method::AboutTab => new == old && (r matches Reply::Show(w) && about_answer(
            old.last,
            lang,
            call.id@,
            Screen::Tab,
            row,
            w@,
        )),
        Method::OpenLocation => new == old && (r matches Reply::Open(o) && match lookup(old.last, call.id@) {
            Some(d) => is_open_of(d, row, o),
            None => o is None,
        }),
        Method::Reveal => new == old && (r matches Reply::Reveal(p) && match lookup(old.last, call.id@) {
            Some(d) => p matches Some(x) && is_resolution_of(d, x),
            None => p is None,
        }),
        Method::CopyPath => new == old && (r matches Reply::CopyPath(p) && match lookup(old.last, call.id@) {
            Some(d) => p matches Some(x) && is_resolution_of(d, x),
            None => p is None,
        }),
        Method::ReportConfig => new == old && (r matches Reply::Show(w) && w@ == report_config_v(lang)),
        Method::MakeReport => new == old && (r matches Reply::Report(spec) && is_report_of(
            spec,
            lang,
            old.last_entries,
            chosen(lang, FORMATS, call.format@)@,
            chosen(lang, CONTENT, call.content@),
            chosen(lang, SCOPES, call.scope@),
        )),
    }
}

/// The message a call of an unknown method fails with.
pub open spec fn no_method_message(method: Seq<char>) -> Seq<char> {
    "programs has no method "@ + method
}

impl Programs {
    /// Enumerated now: remember that a scan was made, its entries and the
    /// search text, and show its first page with a notice of how many
    /// programs were found. `disk[i]` is what the disk said of the location
    /// of the listing's `i`-th entry.
    pub fn scan(&mut self, lang: &str, query: &str, listing: &Inventory, disk: &[OnDisk], report: bool) -> (r:
        Window)
        requires
            disk.len() == listing.entries.len(),
        ensures
            r@.notice == Some(scan_notice(lang_of(lang@), listing.entries@.len())),
            is_render(
                ProgramsView {
                    scanned: true,
                    last_query: query@,
                    last_page: old(self)@.last_page,
                    last_entries: entry_views(listing.entries@),
                    last: old(self)@.last,
                },
                final(self)@,
                lang_of(lang@),
                entry_views(listing.entries@),
                disk@,
                query@,
                0,
                report,
                with_notice(r@, None),
            ),
    {
        let entries = copy_entries(listing.entries.as_slice());
        self.scanned = true;
        self.last_entries = copy_entries(listing.entries.as_slice());
        self.last_query = owned(query);
        let mut w = self.render(lang, entries.as_slice(), disk, query, 0, report);
        let l = parse_lang(lang);
        let mut t = text(l, Msg::ScannedOpen);
        push_str(&mut t, decimal(listing.entries.len()).as_str());
        push_str(&mut t, tr(l, Msg::ScannedClose));
        w.notice = Some(Notice { level: Level::Done, text: t });
        w
    }

    /// Another page of the saved entries, filtered by the live search text
    /// (which is remembered); no enumeration. `disk[i]` is what the disk said
    /// of the location of the `i`-th saved entry.
    pub fn page(&mut self, lang: &str, query: &str, page: usize, disk: &[OnDisk], report: bool) -> (r: Window)
        requires
            disk.len() == old(self).last_entries.len(),
        ensures
            is_render(
                ProgramsView {
                    scanned: old(self)@.scanned,
                    last_query: query@,
                    last_page: old(self)@.last_page,
                    last_entries: old(self)@.last_entries,
                    last: old(self)@.last,
                },
                final(self)@,
                lang_of(lang@),
                old(self)@.last_entries,
                disk@,
                query@,
                page as int,
                report,
                r@,
            ),
    {
        let entries = copy_entries(self.last_entries.as_slice());
        self.last_query = owned(query);
        self.render(lang, entries.as_slice(), disk, query, page, report)
    }

    /// The landing view: the saved results (same search, same page) once the
    /// user has scanned this session, otherwise just a Scan button. `disk[i]`
    /// is what the disk said of the location of the `i`-th saved entry.
    pub fn ui(&mut self, lang: &str, disk: &[OnDisk], report: bool) -> (r: Window)
        requires
            disk.len() == old(self).last_entries.len(),
        ensures
            old(self)@.scanned ==> is_render(
                old(self)@,
                final(self)@,
                lang_of(lang@),
                old(self)@.last_entries,
                disk@,
                old(self)@.last_query,
                old(self)@.last_page as int,
                report,
                r@,
            ),
            !old(self)@.scanned ==> r@ == idle_view_v(lang_of(lang@)) && final(self)@ == old(self)@,
    {
        if self.scanned {
            let entries = copy_entries(self.last_entries.as_slice());
            let query = copy_string(&self.last_query);
            let page = self.last_page;
            self.render(lang, entries.as_slice(), disk, query.as_str(), page, report)
        } else {
            idle_view(lang)
        }
    }

    /// The position, on the page shown last, of the row shown with id `id`.
    fn find(&self, id: &str) -> (r: Option<usize>)
        ensures
            match lookup(self@.last, id@) {
                None => r is None,
                Some(d) => r matches Some(i) && i < self.last.len() && self.last@[i as int].entry@ == d,
            },
    {
        let ghost lv = self@.last;
        let mut i: usize = 0;
        assert(lv.skip(0) =~= lv);
        while i < self.last.len()
            invariant
                lv == self@.last,
                i <= self.last.len(),
                lookup(lv, id@) == lookup(lv.skip(i as int), id@),
            decreases self.last.len() - i,
        {
            assert(lv.skip(i as int)[0] == (self.last@[i as int].id@, self.last@[i as int].entry@));
            assert(lv.skip(i as int).drop_first() =~= lv.skip(i + 1));
            if eq_str(self.last[i].id.as_str(), id) {
                return Some(i);
            }
            i += 1;
        }
        None
    }

    /// The details of the row shown with id `id` on `screen`, given what the
    /// disk said of that row's location (`row`), or, when that row is no
    /// longer there, the view saying so.
    pub fn about(&self, lang: &str, id: &str, screen: Screen, row: OnDisk) -> (r: Window)
        ensures
            about_answer(self@.last, lang_of(lang@), id@, screen, row, r@),
    {
        match self.find(id) {
            Some(i) => about_view(lang, &self.last[i].entry, id, screen, row),
            None => stale_view(lang),
        }
    }

    /// What a row action answers with once the host has carried it out: the
    /// screen it came from (the entry's own tab when it came from there,
    /// otherwise the results as they were), with a notice of how it went when
    /// there is something to say. `disk` is what the disk said of each saved
    /// entry's location, `row` what it said of the acted-on row's.
    pub fn acted(
        &mut self,
        lang: &str,
        id: &str,
        in_tab: bool,
        report: bool,
        action: RowAction,
        outcome: Outcome,
        disk: &[OnDisk],
        row: OnDisk,
    ) -> (r: Window)
        requires
            disk.len() == old(self).last_entries.len(),
        ensures
            in_tab ==> final(self)@ == old(self)@ && about_answer(
                old(self)@.last,
                lang_of(lang@),
                id@,
                Screen::Tab,
                row,
                with_notice(r@, about_notice(old(self)@.last, lang_of(lang@), id@)),
            ) && r@.notice == either(
                action_notice(lang_of(lang@), action, outcome),
                about_notice(old(self)@.last, lang_of(lang@), id@),
            ),
            !in_tab ==> is_render(
                old(self)@,
                final(self)@,
                lang_of(lang@),
                old(self)@.last_entries,
                disk@,
                old(self)@.last_query,
                old(self)@.last_page as int,
                report,
                with_notice(r@, None),
            ) && r@.notice == action_notice(lang_of(lang@), action, outcome),
    {
        let l = parse_lang(lang);
        let n = action_notice_of(l, action, outcome);
        if in_tab {
            let mut w = self.about(lang, id, Screen::Tab, row);
            if n.is_some() {
                w.notice = n;
            }
            w
        } else {
            let entries = copy_entries(self.last_entries.as_slice());
            let query = copy_string(&self.last_query);
            let page = self.last_page;
            let mut w = self.render(lang, entries.as_slice(), disk, query.as_str(), page, report);
            w.notice = n;
            w
        }
    }

    /// Where the row shown with id `id` opens, given what the disk said of its
    /// location (`row`): its folder or file, if that row is there and its
    /// location is one.
    pub fn open_location(&self, id: &str, row: OnDisk) -> (r: Option<OpenAction>)
        ensures
            match lookup(self@.last, id@) {
                Some(d) => is_open_of(d, row, r),
                None => r is None,
            },
    {
        match self.find(id) {
            Some(i) => open_kind(&self.last[i].entry, row),
            None => None,
        }
    }

    /// The location of the row shown with id `id`, if that row is there: the
    /// path the disk is asked about before a call on that row.
    pub fn location_of(&self, id: &str) -> (r: Option<String>)
        ensures
            match lookup(self@.last, id@) {
                Some(d) => r matches Some(x) && x@ == d.location,
                None => r is None,
            },
    {
        match self.find(id) {
            Some(i) => Some(copy_string(&self.last[i].entry.location)),
            None => None,
        }
    }

    /// The path to reveal or copy for the row shown with id `id`, if that row is
    /// there: its recorded location, or a file of its package.
    pub fn path_of(&self, id: &str) -> (r: Option<Resolution>)
        ensures
            match lookup(self@.last, id@) {
                Some(d) => r matches Some(x) && is_resolution_of(d, x),
                None => r is None,
            },
    {
        match self.find(id) {
            Some(i) => Some(resolved_path(&self.last[i].entry)),
            None => None,
        }
    }

    /// The report of the saved entries, as the form's labels (shown in `lang`)
    /// chose it.
    pub fn make_report(&self, lang: &str, format: &str, content: &str, scope: &str) -> (r: ReportSpec)
        ensures
            is_report_of(
                r,
                lang_of(lang@),
                self@.last_entries,
                chosen(lang_of(lang@), FORMATS, format@)@,
                chosen(lang_of(lang@), CONTENT, content@),
                chosen(lang_of(lang@), SCOPES, scope@),
            ),
    {
        let fmt = choice(lang, &FORMATS, format);
        let c = choice(lang, &CONTENT, content);
        let sc = choice(lang, &SCOPES, scope);
        report_spec(lang, self.last_entries.as_slice(), fmt, c, sc)
    }

    /// What a call of `method` comes to. A scan needs the inventory enumerated
    /// for it (`listing`); every other call ignores it. `disk` is what the disk
    /// said of each entry's location (the listing's for a scan, the saved
    /// entries' otherwise), `row` what it said of the location of the row the
    /// call names (see `location_of`).
    pub fn invoke(
        &mut self,
        method: &str,
        call: &Call,
        listing: Option<Inventory>,
        disk: &[OnDisk],
        row: OnDisk,
    ) -> (r: Reply)
        requires
            method@ == method_name(Method::Scan) ==> (listing matches Some(inv) && disk.len()
                == inv.entries.len()),
            method@ != method_name(Method::Scan) ==> disk.len() == old(self).last_entries.len(),
        ensures
            forall|m: Method|
                method_name(m) == method@ ==> is_call(m, old(self)@, final(self)@, *call, listing, disk@, row, r),
            (forall|m: Method| method_name(m) != method@) ==> (r matches Reply::NoMethod(msg) && msg@
                == no_method_message(method@) && final(self)@ == old(self)@),
    {
        let lang = call.lang.as_str();
        match parse_method(method) {
            None => {
                let mut msg = owned("programs has no method ");
                push_str(&mut msg, method);
                Reply::NoMethod(msg)
            },
            Some(m) => {
                let r = match m {
                    Method::Ui => Reply::Show(self.ui(lang, disk, call.report)),
                    Method::Scan => {
                        let inv = listing.unwrap();
                        Reply::Show(self.scan(lang, call.query.as_str(), &inv, disk, call.report))
                    },
                    Method::Page => Reply::Show(
                        self.page(lang, call.query.as_str(), call.page, disk, call.report),
                    ),
                    Method::List => Reply::Listing,
                    Method::About => Reply::Show(self.about(lang, call.id.as_str(), Screen::Modal, row)),
                    Method::AboutTab => Reply::Show(self.about(lang, call.id.as_str(), Screen::Tab, row)),
                    Method::OpenLocation => Reply::Open(self.open_location(call.id.as_str(), row)),
                    Method::Reveal => Reply::Reveal(self.path_of(call.id.as_str())),
                    Method::CopyPath => Reply::CopyPath(self.path_of(call.id.as_str())),
                    Method::ReportConfig => Reply::Show(report_config(lang)),
                    Method::MakeReport => Reply::Report(
                        self.make_report(lang, call.format.as_str(), call.content.as_str(), call.scope.as_str()),
                    ),
                };
                r
            },
        }
    }
}

/// What a copy to the clipboard is logged as: the path when it was copied,
/// otherwise that no clipboard tool answered.
pub fn copy_log(path: &str, copied: bool) -> (r: String)
    ensures
        copied ==> r@ == "programs: copied path to clipboard: "@ + path@,
        !copied ==> r@ == "programs: couldn't copy path — no clipboard tool found"@,
{
    if copied {
        let mut s = owned("programs: copied path to clipboard: ");
        push_str(&mut s, path);
        s
    } else {
        owned("programs: couldn't copy path — no clipboard tool found")
    }
}

} // verus!
