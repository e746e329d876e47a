//! Handing the last scan to a report provider: the form, the document spec
//! built from the scan, and what is shown once the provider has answered.

use vstd::prelude::*;

use crate::entry::{entry_views, in_schema_scope, row_cells, row_of, Entry, EntryView};
use crate::i18n::{
    lang_of, msg, option_labels, options, parse_lang, text, tr, Content, Contents, Formats, Lang,
    Msg, Scope, Scopes, CONTENT, FORMATS, SCOPES,
};
use crate::text::{
    char_views, chars_of, lemma_char_views_push, compare_chars, dec, decimal, eq_chars, eq_str, lemma_seq_lt_irreflexive,
    lemma_seq_lt_total, lemma_seq_lt_transitive, lemma_string_views_push, owned, push_str,
    seq_lt, string_of, string_views, Order,
};
use crate::ui::{
    lemma_widget_views_push, rows_views, widget_views, Args, ArgsView, Button, ButtonView,
    Method, Tone, Widget, WidgetView, Window, WindowView,
};
use crate::view::columns_v;

verus! {

// ------------------------------------------------------------------------
// The form and the outcomes
// ------------------------------------------------------------------------

/// The report form: output format, what to include, which programs to show,
/// and Generate (whose answer opens in a new tab).
pub open spec fn report_config_v(lang: Lang) -> WindowView {
    WindowView {
        modal: None,
        notice: None,
        title: msg(lang, Msg::MakeReport),
        widgets: seq![
            WidgetView::Label { text: msg(lang, Msg::ReportOptions), tone: Tone::Strong },
            WidgetView::Select {
                name: "format"@,
                options: option_labels(lang, FORMATS),
                label: msg(lang, Msg::Output),
            },
            WidgetView::Select {
                name: "content"@,
                options: option_labels(lang, CONTENT),
                label: msg(lang, Msg::Include),
            },
            WidgetView::Select {
                name: "scope"@,
                options: option_labels(lang, SCOPES),
                label: msg(lang, Msg::Show),
            },
            WidgetView::Button(
                ButtonView {
                    text: msg(lang, Msg::Generate),
                    method: Method::MakeReport,
                    args: ArgsView::Nothing,
                    primary: true,
                    open_in_tab: true,
                },
            ),
        ],
    }
}

/// The report form (opened in a tab).
pub fn report_config(lang: &str) -> (r: Window)
    ensures
        r@ == report_config_v(lang_of(lang@)),
{
    let l = parse_lang(lang);
    let mut w: Vec<Widget> = Vec::new();
    let a = Widget::Label { text: text(l, Msg::ReportOptions), tone: Tone::Strong };
    proof {
        lemma_widget_views_push(w@, a);
    }
    w.push(a);
    let b = Widget::Select {
        name: owned("format"),
        options: options(lang, &FORMATS),
        label: text(l, Msg::Output),
    };
    proof {
        lemma_widget_views_push(w@, b);
    }
    w.push(b);
    let c = Widget::Select {
        name: owned("content"),
        options: options(lang, &CONTENT),
        label: text(l, Msg::Include),
    };
    proof {
        lemma_widget_views_push(w@, c);
    }
    w.push(c);
    let d = Widget::Select {
        name: owned("scope"),
        options: options(lang, &SCOPES),
        label: text(l, Msg::Show),
    };
    proof {
        lemma_widget_views_push(w@, d);
    }
    w.push(d);
    let e = Widget::Button(
        Button {
            text: text(l, Msg::Generate),
            method: Method::MakeReport,
            args: Args::Nothing,
            primary: true,
            open_in_tab: true,
        },
    );
    proof {
        lemma_widget_views_push(w@, e);
    }
    w.push(e);
    let r = Window { title: text(l, Msg::MakeReport), widgets: w, modal: None, notice: None };
    assert(r@.widgets =~= report_config_v(l).widgets);
    r
}

/// What is shown when the provider wrote a document rather than a view.
pub open spec fn exported_view_v(lang: Lang) -> WindowView {
    WindowView {
        modal: None,
        notice: None,
        title: msg(lang, Msg::Report),
        widgets: seq![
            WidgetView::Label { text: msg(lang, Msg::ReportExported), tone: Tone::Strong },
            WidgetView::Label { text: msg(lang, Msg::ReportExportedText), tone: Tone::Weak },
        ],
    }
}

/// What is shown when the provider wrote a document rather than a view.
pub fn exported_view(lang: &str) -> (r: Window)
    ensures
        r@ == exported_view_v(lang_of(lang@)),
{
    let l = parse_lang(lang);
    let mut w: Vec<Widget> = Vec::new();
    let a = Widget::Label { text: text(l, Msg::ReportExported), tone: Tone::Strong };
    proof {
        lemma_widget_views_push(w@, a);
    }
    w.push(a);
    let b = Widget::Label { text: text(l, Msg::ReportExportedText), tone: Tone::Weak };
    proof {
        lemma_widget_views_push(w@, b);
    }
    w.push(b);
    let r = Window { title: text(l, Msg::Report), widgets: w, modal: None, notice: None };
    assert(r@.widgets =~= exported_view_v(l).widgets);
    r
}

/// What is shown when the report could not be built, and why.
pub open spec fn report_failed_view_v(lang: Lang, why: Seq<char>) -> WindowView {
    WindowView {
        modal: None,
        notice: None,
        title: msg(lang, Msg::Report),
        widgets: seq![
            WidgetView::Label { text: msg(lang, Msg::ReportFailed), tone: Tone::Strong },
            WidgetView::Label { text: why, tone: Tone::Weak },
        ],
    }
}

/// What is shown when the report could not be built, and why.
pub fn report_failed_view(lang: &str, why: String) -> (r: Window)
    ensures
        r@ == report_failed_view_v(lang_of(lang@), why@),
{
    let l = parse_lang(lang);
    let ghost wv = why@;
    let mut w: Vec<Widget> = Vec::new();
    let a = Widget::Label { text: text(l, Msg::ReportFailed), tone: Tone::Strong };
    proof {
        lemma_widget_views_push(w@, a);
    }
    w.push(a);
    let b = Widget::Label { text: why, tone: Tone::Weak };
    proof {
        lemma_widget_views_push(w@, b);
    }
    w.push(b);
    let r = Window { title: text(l, Msg::Report), widgets: w, modal: None, notice: None };
    assert(r@.widgets =~= report_failed_view_v(l, wv).widgets);
    r
}

/// How a report provider answered a build request.
#[derive(Clone, Debug, PartialEq, Eq)]
pub enum ReportAnswer {
    /// It answered with a view of its own: that view is the report.
    Rendered,
    /// It answered, but with no view: it wrote a document.
    Written,
    /// The call failed, for this reason.
    Failed(String),
}

/// What a report request shows: the provider's own view (none here), the
/// exported notice, or the failure and its reason.
pub fn report_outcome(lang: &str, answer: ReportAnswer) -> (r: Option<Window>)
    ensures
        match answer {
            ReportAnswer::Rendered => r is None,
            ReportAnswer::Written => r matches Some(w) && w@ == exported_view_v(lang_of(lang@)),
            ReportAnswer::Failed(why) => r matches Some(w) && w@ == report_failed_view_v(
                lang_of(lang@),
                why@,
            ),
        },
{
    match answer {
        ReportAnswer::Rendered => None,
        ReportAnswer::Written => Some(exported_view(lang)),
        ReportAnswer::Failed(why) => Some(report_failed_view(lang, why)),
    }
}

// ------------------------------------------------------------------------
// The document spec
// ------------------------------------------------------------------------

/// One bar of the chart: a source and how many programs it holds.
#[derive(Clone, Debug, PartialEq, Eq)]
pub struct ChartPoint {
    pub label: String,
    pub value: usize,
}

/// A chart: its title and its bars, in order.
#[derive(Clone, Debug, PartialEq, Eq)]
pub struct Chart {
    pub title: String,
    pub data: Vec<ChartPoint>,
}

/// A table section: its heading, columns and rows.
#[derive(Clone, Debug, PartialEq, Eq)]
pub struct Section {
    pub heading: String,
    pub columns: Vec<String>,
    pub rows: Vec<Vec<String>>,
}

/// What a report provider is asked to build: a title, a subtitle with the
/// counts, the output format, summary lines, the charts and the sections.
#[derive(Clone, Debug, PartialEq, Eq)]
pub struct ReportSpec {
    pub title: String,
    pub subtitle: String,
    pub format: String,
    pub summary: Vec<String>,
    pub charts: Vec<Chart>,
    pub sections: Vec<Section>,
}

/// Whether an entry is covered by a report scope.
pub open spec fn in_scope(scope: Scope, d: EntryView) -> bool {
    match scope {
        Scope::System => d.scope == "system"@,
        Scope::User => d.scope == "user"@,
        Scope::All => true,
    }
}

/// The entries a report covers, in order.
pub open spec fn scoped(s: Seq<EntryView>, scope: Scope) -> Seq<EntryView>
    decreases s.len(),
{
    if s.len() == 0 {
        Seq::empty()
    } else {
        let r = scoped(s.drop_last(), scope);
        if in_scope(scope, s.last()) {
            r.push(s.last())
        } else {
            r
        }
    }
}

/// How many entries are installed in scope `sc`.
pub open spec fn scope_count(s: Seq<EntryView>, sc: Seq<char>) -> nat
    decreases s.len(),
{
    if s.len() == 0 {
        0
    } else {
        scope_count(s.drop_last(), sc) + if s.last().scope == sc {
            1nat
        } else {
            0nat
        }
    }
}

/// How many entries come from source `src`.
pub open spec fn source_count(s: Seq<EntryView>, src: Seq<char>) -> nat
    decreases s.len(),
{
    if s.len() == 0 {
        0
    } else {
        source_count(s.drop_last(), src) + if s.last().source == src {
            1nat
        } else {
            0nat
        }
    }
}

/// The order of the chart's bars: larger counts first, equal counts by source.
pub open spec fn bar_before(a: (Seq<char>, nat), b: (Seq<char>, nat)) -> bool {
    a.1 > b.1 || (a.1 == b.1 && seq_lt(a.0, b.0))
}

/// Whether some bar is for source `src`.
pub open spec fn has_bar(data: Seq<(Seq<char>, nat)>, src: Seq<char>) -> bool {
    exists|i: int| 0 <= i < data.len() && #[trigger] data[i].0 == src
}

/// `data` is the by-source chart of `s`: one bar per source that occurs, with
/// its count, larger counts first and equal counts ordered by source.
pub open spec fn is_source_chart(s: Seq<EntryView>, data: Seq<(Seq<char>, nat)>) -> bool {
    &&& forall|i: int|
        0 <= i < data.len() ==> #[trigger] data[i].1 == source_count(s, data[i].0) && data[i].1 > 0
    &&& forall|k: int| 0 <= k < s.len() ==> has_bar(data, #[trigger] s[k].source)
    &&& forall|i: int, j: int| 0 <= i < j < data.len() ==> bar_before(#[trigger] data[i], #[trigger] data[j])
}

pub open spec fn point_views(p: Seq<ChartPoint>) -> Seq<(Seq<char>, nat)> {
    p.map_values(|x: ChartPoint| (x.label@, x.value as nat))
}

/// The subtitle: the total, then how many are system-wide and per-user.
pub open spec fn subtitle_v(lang: Lang, total: nat, system: nat, user: nat) -> Seq<char> {
    dec(total) + msg(lang, Msg::DocPrograms) + dec(system) + msg(lang, Msg::DocSystem) + dec(user)
        + msg(lang, Msg::DocUser)
}

/// The summary lines: the total, the system-wide count and the per-user count.
pub open spec fn summary_v(lang: Lang, total: nat, system: nat, user: nat) -> Seq<Seq<char>> {
    seq![
        msg(lang, Msg::DocTotal) + dec(total),
        msg(lang, Msg::DocSystemWide) + dec(system),
        msg(lang, Msg::DocUserLine) + dec(user),
    ]
}

/// Whether `r` is the report of `entries` in `lang`, in format `fmt`, with
/// `content` and `scope` as chosen: counts over every entry; a chart of the
/// covered entries by source unless only tables were asked for or nothing is
/// covered; a table of the covered entries unless only charts were asked for.
pub open spec fn is_report_of(
    r: ReportSpec,
    lang: Lang,
    entries: Seq<EntryView>,
    fmt: Seq<char>,
    content: Content,
    scope: Scope,
) -> bool {
    let total = entries.len();
    let system = scope_count(entries, "system"@);
    let user = scope_count(entries, "user"@);
    let covered = scoped(entries, scope);
    &&& r.title@ == msg(lang, Msg::DocTitle)
    &&& r.subtitle@ == subtitle_v(lang, total, system, user)
    &&& r.format@ == fmt
    &&& string_views(r.summary@) == summary_v(lang, total, system, user)
    &&& if content != Content::Tables && covered.len() > 0 {
        &&& r.charts.len() == 1
        &&& r.charts[0].title@ == msg(lang, Msg::ChartTitle)
        &&& is_source_chart(covered, point_views(r.charts[0].data@))
    } else {
        r.charts.len() == 0
    }
    &&& if content != Content::Charts {
        &&& r.sections.len() == 1
        &&& r.sections[0].heading@ == msg(lang, Msg::SectionHeading)
        &&& string_views(r.sections[0].columns@) == columns_v(lang)
        &&& rows_views(r.sections[0].rows@) == covered.map_values(|d: EntryView| row_of(d))
    } else {
        r.sections.len() == 0
    }
}

fn count_scope(entries: &[Entry], sc: &str) -> (r: usize)
    ensures
        r == scope_count(entry_views(entries@), sc@),
{
    let ghost s = entry_views(entries@);
    let mut n: usize = 0;
    let mut i: usize = 0;
    while i < entries.len()
        invariant
            s == entry_views(entries@),
            i <= entries.len(),
            n == scope_count(s.take(i as int), sc@),
            n <= i,
        decreases entries.len() - i,
    {
        assert(s.take(i + 1).drop_last() =~= s.take(i as int));
        if eq_str(entries[i].scope.as_str(), sc) {
            n += 1;
        }
        i += 1;
    }
    assert(s.take(entries.len() as int) =~= s);
    n
}

fn is_in_scope(scope: Scope, d: &Entry) -> (r: bool)
    ensures
        r == in_scope(scope, d@),
{
    match scope {
        Scope::System => eq_str(d.scope.as_str(), "system"),
        Scope::User => eq_str(d.scope.as_str(), "user"),
        Scope::All => true,
    }
}

/// The covered entries: their positions in `entries`, in order.
fn covered_indices(entries: &[Entry], scope: Scope) -> (r: Vec<usize>)
    ensures
        r@.len() == scoped(entry_views(entries@), scope).len(),
        forall|k: int| 0 <= k < r@.len() ==> #[trigger] r@[k] < entries@.len() && entry_views(entries@)[r@[k] as int]
            == scoped(entry_views(entries@), scope)[k],
{
    let ghost s = entry_views(entries@);
    let mut r: Vec<usize> = Vec::new();
    let mut i: usize = 0;
    while i < entries.len()
        invariant
            s == entry_views(entries@),
            i <= entries.len(),
            r@.len() == scoped(s.take(i as int), scope).len(),
            forall|k: int| 0 <= k < r@.len() ==> #[trigger] r@[k] < i && s[r@[k] as int] == scoped(
                s.take(i as int),
                scope,
            )[k],
        decreases entries.len() - i,
    {
        assert(s.take(i + 1).drop_last() =~= s.take(i as int));
        assert(s.take(i + 1).last() == s[i as int]);
        if is_in_scope(scope, &entries[i]) {
            r.push(i);
        }
        i += 1;
    }
    assert(s.take(entries.len() as int) =~= s);
    r
}

proof fn lemma_source_count_pos(s: Seq<EntryView>, k: int)
    requires
        0 <= k < s.len(),
    ensures
        source_count(s, s[k].source) > 0,
    decreases s.len(),
{
    if k < s.len() - 1 {
        lemma_source_count_pos(s.drop_last(), k);
    }
}

/// The distinct sources of `covered`, in the order they first occur, each with
/// its count.
fn tally(entries: &[Entry], idx: &Vec<usize>, Ghost(covered): Ghost<Seq<EntryView>>) -> (r: (
    Vec<Vec<char>>,
    Vec<usize>,
))
    requires
        idx@.len() == covered.len(),
        forall|k: int| 0 <= k < idx@.len() ==> #[trigger] idx@[k] < entries@.len() && entry_views(entries@)[idx@[k] as int]
            == covered[k],
    ensures
        r.0.len() == r.1.len(),
        forall|i: int| 0 <= i < r.0.len() ==> #[trigger] r.1@[i] == source_count(covered, r.0@[i]@) && r.1@[i] > 0,
        forall|k: int| 0 <= k < covered.len() ==> char_views(r.0@).contains(#[trigger] covered[k].source),
        char_views(r.0@).no_duplicates(),
{
    let ghost ev = entry_views(entries@);
    let mut labels: Vec<Vec<char>> = Vec::new();
    let mut i: usize = 0;
    while i < idx.len()
        invariant
            ev == entry_views(entries@),
            idx@.len() == covered.len(),
            forall|k: int| 0 <= k < idx@.len() ==> #[trigger] idx@[k] < entries@.len() && ev[idx@[k] as int] == covered[k],
            i <= idx.len(),
            forall|k: int| 0 <= k < i ==> char_views(labels@).contains(#[trigger] covered[k].source),
            forall|m: int| 0 <= m < labels.len() ==> source_count(covered, #[trigger] char_views(labels@)[m]) > 0,
            char_views(labels@).no_duplicates(),
        decreases idx.len() - i,
    {
        let e = &entries[idx[i]];
        assert(e@ == covered[i as int]);
        let src = chars_of(e.source.as_str());
        proof {
            lemma_source_count_pos(covered, i as int);
        }
        let mut found = false;
        let mut m: usize = 0;
        while m < labels.len()
            invariant
                m <= labels.len(),
                found == exists|q: int| 0 <= q < m && #[trigger] char_views(labels@)[q] == src@,
            decreases labels.len() - m,
        {
            assert(char_views(labels@)[m as int] == labels@[m as int]@);
            if eq_chars(labels[m].as_slice(), src.as_slice()) {
                found = true;
            }
            m += 1;
        }
        let ghost lv = char_views(labels@);
        if !found {
            proof {
                lemma_char_views_push(labels@, src);
            }
            labels.push(src);
            proof {
                let nv = char_views(labels@);
                assert(nv == lv.push(src@));
                assert forall|k: int| 0 <= k < i + 1 implies nv.contains(#[trigger] covered[k].source) by {
                    if k < i {
                        let q = choose|q: int| 0 <= q < lv.len() && lv[q] == covered[k].source;
                        assert(nv[q] == lv[q]);
                    } else {
                        assert(nv[lv.len() as int] == covered[k].source);
                    }
                }
                assert forall|m: int| 0 <= m < nv.len() implies source_count(covered, #[trigger] nv[m]) > 0 by {
                    if m < lv.len() {
                        assert(nv[m] == lv[m]);
                    }
                }
                assert forall|a: int, b: int| 0 <= a < nv.len() && 0 <= b < nv.len() && a != b implies nv[a] != nv[b] by {
                    if a < lv.len() && b < lv.len() {
                        assert(nv[a] == lv[a] && nv[b] == lv[b]);
                    } else if a < lv.len() {
                        assert(nv[a] == lv[a]);
                    } else if b < lv.len() {
                        assert(nv[b] == lv[b]);
                    }
                }
            }
        } else {
            proof {
                let q = choose|q: int| 0 <= q < lv.len() && #[trigger] lv[q] == src@;
                assert(lv[q] == covered[i as int].source);
            }
        }
        i += 1;
    }
    let mut counts: Vec<usize> = Vec::new();
    let mut j: usize = 0;
    while j < labels.len()
        invariant
            ev == entry_views(entries@),
            idx@.len() == covered.len(),
            forall|k: int| 0 <= k < idx@.len() ==> #[trigger] idx@[k] < entries@.len() && ev[idx@[k] as int] == covered[k],
            j <= labels.len(),
            counts.len() == j,
            forall|q: int| 0 <= q < j ==> #[trigger] counts@[q] == source_count(covered, labels@[q]@) && counts@[q] > 0,
            forall|m: int| 0 <= m < labels.len() ==> source_count(covered, #[trigger] char_views(labels@)[m]) > 0,
        decreases labels.len() - j,
    {
        let mut n: usize = 0;
        let mut k: usize = 0;
        while k < idx.len()
            invariant
                ev == entry_views(entries@),
                idx@.len() == covered.len(),
                forall|t: int| 0 <= t < idx@.len() ==> #[trigger] idx@[t] < entries@.len() && ev[idx@[t] as int] == covered[t],
                j < labels.len(),
                k <= idx.len(),
                n == source_count(covered.take(k as int), labels@[j as int]@),
                n <= k,
            decreases idx.len() - k,
        {
            assert(covered.take(k + 1).drop_last() =~= covered.take(k as int));
            let e = &entries[idx[k]];
            assert(e@ == covered[k as int]);
            let src = chars_of(e.source.as_str());
            if eq_chars(src.as_slice(), labels[j].as_slice()) {
                n += 1;
            }
            k += 1;
        }
        assert(covered.take(idx.len() as int) =~= covered);
        assert(char_views(labels@)[j as int] == labels@[j as int]@);
        counts.push(n);
        j += 1;
    }
    assert forall|i: int| 0 <= i < labels.len() implies #[trigger] counts@[i] == source_count(covered, labels@[i]@) && counts@[i] > 0 by {}
    (labels, counts)
}

/// Inserting a bar whose source is new at a place that keeps the order keeps
/// the bars a chart of `covered` so far; `at` tracks where each source done so
/// far stands among the bars.
proof fn lemma_insert_bar(
    pv: Seq<(Seq<char>, nat)>,
    x: (Seq<char>, nat),
    pos: int,
    covered: Seq<EntryView>,
    done: Seq<Seq<char>>,
    at: Seq<int>,
) -> (at2: Seq<int>)
    requires
        0 <= pos <= pv.len(),
        forall|m: int| 0 <= m < pv.len() ==> #[trigger] pv[m].1 == source_count(covered, pv[m].0) && pv[m].1 > 0,
        x.1 == source_count(covered, x.0),
        x.1 > 0,
        forall|m: int| 0 <= m < pv.len() ==> done.contains(#[trigger] pv[m].0),
        at.len() == done.len(),
        forall|i: int| 0 <= i < done.len() ==> 0 <= #[trigger] at[i] < pv.len() && pv[at[i]].0 == done[i],
        !done.contains(x.0),
        forall|a: int, b: int| 0 <= a < b < pv.len() ==> bar_before(#[trigger] pv[a], #[trigger] pv[b]),
        pos > 0 ==> !bar_before(x, pv[pos - 1]),
        forall|q: int| pos <= q < pv.len() ==> bar_before(x, #[trigger] pv[q]),
    ensures
        forall|m: int| 0 <= m < pv.len() + 1 ==> #[trigger] pv.insert(pos, x)[m].1 == source_count(covered, pv.insert(pos, x)[m].0) && pv.insert(pos, x)[m].1 > 0,
        forall|m: int| 0 <= m < pv.len() + 1 ==> done.push(x.0).contains(#[trigger] pv.insert(pos, x)[m].0),
        at2.len() == done.len() + 1,
        forall|i: int| 0 <= i < done.len() + 1 ==> 0 <= #[trigger] at2[i] < pv.len() + 1 && pv.insert(pos, x)[at2[i]].0 == done.push(x.0)[i],
        forall|a: int, b: int| 0 <= a < b < pv.len() + 1 ==> bar_before(#[trigger] pv.insert(pos, x)[a], #[trigger] pv.insert(pos, x)[b]),
{
    let p2 = pv.insert(pos, x);
    let d2 = done.push(x.0);
    assert forall|m: int| 0 <= m < p2.len() implies #[trigger] p2[m].1 == source_count(covered, p2[m].0) && p2[m].1 > 0 by {
        if m < pos {
            assert(p2[m] == pv[m]);
        } else if m > pos {
            assert(p2[m] == pv[m - 1]);
        }
    }
    assert forall|m: int| 0 <= m < p2.len() implies d2.contains(#[trigger] p2[m].0) by {
        if m < pos {
            assert(p2[m] == pv[m]);
            let i = choose|i: int| 0 <= i < done.len() && done[i] == pv[m].0;
            assert(d2[i] == done[i]);
        } else if m > pos {
            assert(p2[m] == pv[m - 1]);
            let i = choose|i: int| 0 <= i < done.len() && done[i] == pv[m - 1].0;
            assert(d2[i] == done[i]);
        } else {
            assert(d2[done.len() as int] == x.0);
        }
    }
    let at2 = Seq::new(done.len() + 1, |i: int| if i == done.len() {
        pos
    } else if at[i] >= pos {
        at[i] + 1
    } else {
        at[i]
    });
    assert forall|i: int| 0 <= i < d2.len() implies 0 <= #[trigger] at2[i] < p2.len() && p2[at2[i]].0 == d2[i] by {
        if i < done.len() {
            if at[i] >= pos {
                assert(p2[at[i] + 1] == pv[at[i]]);
            } else {
                assert(p2[at[i]] == pv[at[i]]);
            }
        } else {
            assert(p2[pos] == x);
        }
    }
    if pos > 0 {
        let y = pv[pos - 1];
        assert(y.0 != x.0) by {
            let i = choose|i: int| 0 <= i < done.len() && done[i] == y.0;
        }
        if y.1 == x.1 {
            lemma_seq_lt_total(x.0, y.0);
        }
        assert(bar_before(y, x));
    }
    assert forall|a: int, b: int| 0 <= a < b < p2.len() implies bar_before(#[trigger] p2[a], #[trigger] p2[b]) by {
        if b < pos {
            assert(p2[a] == pv[a] && p2[b] == pv[b]);
        } else if b == pos {
            assert(p2[a] == pv[a]);
            assert(p2[b] == x);
            if a < pos - 1 {
                lemma_bar_before_transitive(pv[a], pv[pos - 1], x);
            }
        } else if a > pos {
            assert(p2[a] == pv[a - 1] && p2[b] == pv[b - 1]);
        } else if a == pos {
            assert(p2[a] == x);
            assert(p2[b] == pv[b - 1]);
        } else {
            assert(p2[a] == pv[a] && p2[b] == pv[b - 1]);
        }
    }
    at2
}

/// The bars of the chart, larger counts first and equal counts by source.
fn sorted_bars(labels: &Vec<Vec<char>>, counts: &Vec<usize>, Ghost(covered): Ghost<Seq<EntryView>>) -> (r: Vec<ChartPoint>)
    requires
        labels.len() == counts.len(),
        forall|i: int| 0 <= i < labels.len() ==> #[trigger] counts@[i] == source_count(covered, labels@[i]@) && counts@[i] > 0,
        forall|k: int| 0 <= k < covered.len() ==> char_views(labels@).contains(#[trigger] covered[k].source),
        char_views(labels@).no_duplicates(),
    ensures
        is_source_chart(covered, point_views(r@)),
{
    let ghost lv = char_views(labels@);
    let mut out: Vec<ChartPoint> = Vec::new();
    let ghost mut at: Seq<int> = Seq::empty();
    let mut j: usize = 0;
    while j < labels.len()
        invariant
            lv == char_views(labels@),
            labels.len() == counts.len(),
            forall|i: int| 0 <= i < labels.len() ==> #[trigger] counts@[i] == source_count(covered, labels@[i]@) && counts@[i] > 0,
            lv.no_duplicates(),
            j <= labels.len(),
            at.len() == j,
            ({
                let pv = point_views(out@);
                &&& forall|m: int| 0 <= m < pv.len() ==> #[trigger] pv[m].1 == source_count(covered, pv[m].0) && pv[m].1 > 0
                &&& forall|m: int| 0 <= m < pv.len() ==> lv.take(j as int).contains(#[trigger] pv[m].0)
                &&& forall|i: int| 0 <= i < j ==> 0 <= #[trigger] at[i] < pv.len() && pv[at[i]].0 == lv[i]
                &&& forall|a: int, b: int| 0 <= a < b < pv.len() ==> bar_before(#[trigger] pv[a], #[trigger] pv[b])
            }),
        decreases labels.len() - j,
    {
        let ghost pv = point_views(out@);
        let x_label = &labels[j];
        let x_count = counts[j];
        let ghost x = (x_label@, x_count as nat);
        assert(lv[j as int] == x_label@);
        let mut pos: usize = out.len();
        loop
            invariant
                pv == point_views(out@),
                x == (x_label@, x_count as nat),
                pos <= out.len(),
                forall|q: int| pos <= q < pv.len() ==> bar_before(x, #[trigger] pv[q]),
            ensures
                pos <= out.len(),
                pos > 0 ==> !bar_before(x, pv[pos - 1]),
                forall|q: int| pos <= q < pv.len() ==> bar_before(x, #[trigger] pv[q]),
            decreases pos,
        {
            if pos == 0 {
                break;
            }
            let y = &out[pos - 1];
            assert(pv[pos - 1] == (y.label@, y.value as nat));
            let yl = chars_of(y.label.as_str());
            let before = if x_count > y.value {
                true
            } else if x_count == y.value {
                match compare_chars(x_label.as_slice(), yl.as_slice()) {
                    Order::Less => true,
                    _ => false,
                }
            } else {
                false
            };
            if before {
                pos -= 1;
            } else {
                break;
            }
        }
        let p = ChartPoint { label: string_of(x_label.as_slice()), value: x_count };
        proof {
            let done = lv.take(j as int);
            assert(!done.contains(x.0)) by {
                if done.contains(x.0) {
                    let i = choose|i: int| 0 <= i < done.len() && done[i] == x.0;
                    assert(lv[i] == lv[j as int]);
                }
            }
            assert forall|i: int| 0 <= i < done.len() implies 0 <= #[trigger] at[i] < pv.len() && pv[at[i]].0 == done[i] by {
                assert(done[i] == lv[i]);
            }
            at = lemma_insert_bar(pv, x, pos as int, covered, done, at);
            assert(lv.take(j + 1) =~= done.push(x.0));
            assert forall|i: int| 0 <= i < j + 1 implies #[trigger] at[i] == at[i] && lv[i] == done.push(x.0)[i] by {
                assert(lv.take(j + 1)[i] == lv[i]);
            }
        }
        out.insert(pos, p);
        assert(point_views(out@) =~= pv.insert(pos as int, x));
        j += 1;
    }
    proof {
        let pv = point_views(out@);
        assert(lv.take(labels.len() as int) =~= lv);
        assert forall|k: int| 0 <= k < covered.len() implies has_bar(pv, #[trigger] covered[k].source) by {
            let i = choose|i: int| 0 <= i < lv.len() && lv[i] == covered[k].source;
            assert(pv[at[i]].0 == lv[i]);
        }
    }
    out
}

pub proof fn lemma_bar_before_transitive(a: (Seq<char>, nat), b: (Seq<char>, nat), c: (Seq<char>, nat))
    requires
        bar_before(a, b),
        bar_before(b, c),
    ensures
        bar_before(a, c),
{
    if a.1 == b.1 && b.1 == c.1 {
        lemma_seq_lt_transitive(a.0, b.0, c.0);
    }
}

fn line_with(l: Lang, m: Msg, n: usize) -> (r: String)
    ensures
        r@ == msg(l, m) + dec(n as nat),
{
    let mut s = text(l, m);
    push_str(&mut s, decimal(n).as_str());
    s
}

/// The document spec a report provider is handed: the title, a subtitle and
/// summary with the total and the system-wide and per-user counts (over every
/// entry), the format, a chart of the covered entries by source (unless only
/// tables were asked for, or nothing is covered), and a table of the covered
/// entries (unless only charts were asked for). Written in the language of
/// `lang`; `fmt` is passed on as it is.
pub fn report_spec(lang: &str, entries: &[Entry], fmt: &str, content: Content, scope: Scope) -> (r:
    ReportSpec)
    ensures
        is_report_of(r, lang_of(lang@), entry_views(entries@), fmt@, content, scope),
{
    let l = parse_lang(lang);
    let ghost ev = entry_views(entries@);
    let total = entries.len();
    let system = count_scope(entries, "system");
    let user = count_scope(entries, "user");
    let mut subtitle = decimal(total);
    push_str(&mut subtitle, tr(l, Msg::DocPrograms));
    push_str(&mut subtitle, decimal(system).as_str());
    push_str(&mut subtitle, tr(l, Msg::DocSystem));
    push_str(&mut subtitle, decimal(user).as_str());
    push_str(&mut subtitle, tr(l, Msg::DocUser));
    let mut summary: Vec<String> = Vec::new();
    summary.push(line_with(l, Msg::DocTotal, total));
    summary.push(line_with(l, Msg::DocSystemWide, system));
    summary.push(line_with(l, Msg::DocUserLine, user));
    assert(string_views(summary@) =~= summary_v(l, total as nat, system as nat, user as nat));
    let idx = covered_indices(entries, scope);
    let ghost covered = scoped(ev, scope);
    let mut charts: Vec<Chart> = Vec::new();
    if !matches!(content, Content::Tables) && idx.len() > 0 {
        let (labels, counts) = tally(entries, &idx, Ghost(covered));
        let data = sorted_bars(&labels, &counts, Ghost(covered));
        charts.push(Chart { title: text(l, Msg::ChartTitle), data });
    }
    let mut sections: Vec<Section> = Vec::new();
    if !matches!(content, Content::Charts) {
        let mut rows: Vec<Vec<String>> = Vec::new();
        let mut k: usize = 0;
        while k < idx.len()
            invariant
                ev == entry_views(entries@),
                covered == scoped(ev, scope),
                idx@.len() == covered.len(),
                forall|q: int| 0 <= q < idx@.len() ==> #[trigger] idx@[q] < entries@.len() && ev[idx@[q] as int] == covered[q],
                k <= idx.len(),
                rows_views(rows@) == covered.take(k as int).map_values(|d: EntryView| row_of(d)),
            decreases idx.len() - k,
        {
            let cells = row_cells(&entries[idx[k]]);
            let ghost before = rows_views(rows@);
            rows.push(cells);
            assert(rows_views(rows@) =~= covered.take(k + 1).map_values(|d: EntryView| row_of(d))) by {
                assert(rows_views(rows@) =~= before.push(row_of(covered[k as int])));
            }
            k += 1;
        }
        assert(covered.take(idx.len() as int) =~= covered);
        sections.push(
            Section { heading: text(l, Msg::SectionHeading), columns: crate::view::columns(lang), rows },
        );
    }
    let r = ReportSpec { title: text(l, Msg::DocTitle), subtitle, format: owned(fmt), summary, charts, sections };
    assert(r.subtitle@ =~= subtitle_v(l, total as nat, system as nat, user as nat));
    r
}


// ------------------------------------------------------------------------
// What the report's numbers add up to
// ------------------------------------------------------------------------

/// The total of a chart's bars.
pub open spec fn bar_total(data: Seq<(Seq<char>, nat)>) -> nat
    decreases data.len(),
{
    if data.len() == 0 {
        0
    } else {
        bar_total(data.drop_last()) + data.last().1
    }
}

/// How many entries of `s` come from the sources the bars name.
spec fn count_sum(s: Seq<EntryView>, data: Seq<(Seq<char>, nat)>) -> nat
    decreases data.len(),
{
    if data.len() == 0 {
        0
    } else {
        count_sum(s, data.drop_last()) + source_count(s, data.last().0)
    }
}

spec fn distinct_labels(data: Seq<(Seq<char>, nat)>) -> bool {
    forall|i: int, j: int| 0 <= i < j < data.len() ==> #[trigger] data[i].0 != #[trigger] data[j].0
}

proof fn lemma_count_sum_push(s: Seq<EntryView>, e: EntryView, data: Seq<(Seq<char>, nat)>)
    requires
        distinct_labels(data),
    ensures
        count_sum(s.push(e), data) == count_sum(s, data) + if has_bar(data, e.source) {
            1nat
        } else {
            0nat
        },
    decreases data.len(),
{
    if data.len() > 0 {
        let d = data.drop_last();
        assert forall|i: int, j: int| 0 <= i < j < d.len() implies #[trigger] d[i].0 != #[trigger] d[j].0 by {
            assert(d[i] == data[i] && d[j] == data[j]);
        }
        lemma_count_sum_push(s, e, d);
        assert(s.push(e).drop_last() =~= s);
        let l = data.last().0;
        if has_bar(d, e.source) {
            let i = choose|i: int| 0 <= i < d.len() && #[trigger] d[i].0 == e.source;
            assert(data[i].0 == e.source);
            assert(data[data.len() - 1].0 != e.source);
            assert(has_bar(data, e.source));
        } else if l == e.source {
            assert(data[data.len() - 1].0 == e.source);
        } else {
            assert forall|i: int| 0 <= i < data.len() implies #[trigger] data[i].0 != e.source by {
                if i < d.len() {
                    assert(d[i] == data[i]);
                }
            }
        }
    }
}

proof fn lemma_count_sum_covers(s: Seq<EntryView>, data: Seq<(Seq<char>, nat)>)
    requires
        distinct_labels(data),
        forall|k: int| 0 <= k < s.len() ==> has_bar(data, #[trigger] s[k].source),
    ensures
        count_sum(s, data) == s.len(),
    decreases s.len(),
{
    if s.len() == 0 {
        assert(s =~= Seq::<EntryView>::empty());
        lemma_count_sum_empty(data);
    } else {
        let t = s.drop_last();
        assert forall|k: int| 0 <= k < t.len() implies has_bar(data, #[trigger] t[k].source) by {
            assert(t[k] == s[k]);
        }
        lemma_count_sum_covers(t, data);
        assert(t.push(s.last()) =~= s);
        assert(has_bar(data, s[s.len() - 1].source));
        lemma_count_sum_push(t, s.last(), data);
    }
}

proof fn lemma_count_sum_empty(data: Seq<(Seq<char>, nat)>)
    ensures
        count_sum(Seq::empty(), data) == 0,
    decreases data.len(),
{
    if data.len() > 0 {
        lemma_count_sum_empty(data.drop_last());
    }
}

proof fn lemma_bar_total_is_count_sum(s: Seq<EntryView>, data: Seq<(Seq<char>, nat)>)
    requires
        forall|i: int| 0 <= i < data.len() ==> #[trigger] data[i].1 == source_count(s, data[i].0),
    ensures
        bar_total(data) == count_sum(s, data),
    decreases data.len(),
{
    if data.len() > 0 {
        let d = data.drop_last();
        assert forall|i: int| 0 <= i < d.len() implies #[trigger] d[i].1 == source_count(s, d[i].0) by {
            assert(d[i] == data[i]);
        }
        lemma_bar_total_is_count_sum(s, d);
        assert(data[data.len() - 1].1 == source_count(s, data[data.len() - 1].0));
    }
}

/// A by-source chart counts every program it covers exactly once: its bars
/// add up to the number of programs.
pub proof fn lemma_chart_adds_up(s: Seq<EntryView>, data: Seq<(Seq<char>, nat)>)
    requires
        is_source_chart(s, data),
    ensures
        bar_total(data) == s.len(),
{
    assert forall|i: int, j: int| 0 <= i < j < data.len() implies #[trigger] data[i].0 != #[trigger] data[j].0 by {
        if data[i].0 == data[j].0 {
            assert(bar_before(data[i], data[j]));
            lemma_seq_lt_irreflexive(data[i].0);
        }
    }
    lemma_bar_total_is_count_sum(s, data);
    lemma_count_sum_covers(s, data);
}

/// A report's chart and its table agree: the bars add up to the programs the
/// report covers, which are the table's rows when it has a table.
pub proof fn lemma_report_chart_matches_table(
    r: ReportSpec,
    lang: Lang,
    entries: Seq<EntryView>,
    fmt: Seq<char>,
    content: Content,
    scope: Scope,
)
    requires
        is_report_of(r, lang, entries, fmt, content, scope),
        r.charts.len() == 1,
    ensures
        bar_total(point_views(r.charts[0].data@)) == scoped(entries, scope).len(),
        r.sections.len() == 1 ==> bar_total(point_views(r.charts[0].data@)) == r.sections[0].rows.len(),
{
    lemma_chart_adds_up(scoped(entries, scope), point_views(r.charts[0].data@));
    if r.sections.len() == 1 {
        assert(rows_views(r.sections[0].rows@).len() == r.sections[0].rows@.len());
    }
}

/// "All programs" covers every entry, in order.
pub proof fn lemma_all_scope_covers_everything(s: Seq<EntryView>)
    ensures
        scoped(s, Scope::All) == s,
    decreases s.len(),
{
    if s.len() > 0 {
        lemma_all_scope_covers_everything(s.drop_last());
        assert(s.drop_last().push(s.last()) =~= s);
    }
}

/// When every entry is in the system's scope or the user's (as every entry of
/// a listing is), the system-wide and per-user counts add up to the total.
pub proof fn lemma_scope_counts_add_up(s: Seq<EntryView>)
    requires
        forall|i: int| 0 <= i < s.len() ==> in_schema_scope(#[trigger] s[i]),
    ensures
        scope_count(s, "system"@) + scope_count(s, "user"@) == s.len(),
    decreases s.len(),
{
    reveal_strlit("system");
    reveal_strlit("user");
    assert("system"@ != "user"@) by {
        assert("system"@.len() != "user"@.len());
    }
    if s.len() > 0 {
        let t = s.drop_last();
        assert forall|i: int| 0 <= i < t.len() implies in_schema_scope(#[trigger] t[i]) by {
            assert(t[i] == s[i]);
        }
        lemma_scope_counts_add_up(t);
        assert(in_schema_scope(s[s.len() - 1]));
    }
}


/// The chart lists its sources from the most programs to the fewest, sources
/// with as many programs in order of their names, each source once.
pub proof fn lemma_chart_largest_first(s: Seq<EntryView>, data: Seq<(Seq<char>, nat)>)
    requires
        is_source_chart(s, data),
    ensures
        forall|i: int, j: int| 0 <= i < j < data.len() ==> (#[trigger] data[i]).1 >= (#[trigger] data[j]).1,
        forall|i: int, j: int|
            0 <= i < j < data.len() && (#[trigger] data[i]).1 == (#[trigger] data[j]).1 ==> seq_lt(data[i].0, data[j].0),
        forall|i: int, j: int| 0 <= i < j < data.len() ==> (#[trigger] data[i]).0 != (#[trigger] data[j]).0,
{
    assert forall|i: int, j: int| 0 <= i < j < data.len() implies (#[trigger] data[i]).0 != (#[trigger] data[j]).0 by {
        assert(bar_before(data[i], data[j]));
        if data[i].0 == data[j].0 {
            lemma_seq_lt_irreflexive(data[i].0);
        }
    }
}

} // verus!
