//! Everything the module draws.
//!
//! Nothing here holds state: the handler decides what to show, these decide
//! how it looks. Each screen is stated as the window it is (`*_v`), and built.

use vstd::prelude::*;

use crate::entry::{
    decide_open, has_path, has_path_spec, open_decision, open_label_of, Entry, EntryView, OnDisk, OpenLabel,
};
use crate::i18n::{lang_of, msg, parse_lang, text, Lang, Msg};
use crate::text::{
    copy_string, dec, decimal, lemma_dec_digits, lemma_dec_injective, lemma_string_views_push, owned,
    push_str, string_views,
};
use crate::ui::{
    item_views, lemma_item_views_push, lemma_menu_views_push, lemma_widget_views_push,
    menu_views, menus_views, rows_views, widget_views, Args, ArgsView, Button, ButtonView, Item,
    ItemView, Level, MenuItem, MenuItemView, Method, Modal, Notice, NoticeView, Screen, Tone, Widget,
    WidgetView, Window, WindowView,
};

verus! {

/// Rows shown per page: a machine can have thousands of programs, so the
/// table is paginated to keep each view light.
pub const PAGE_SIZE: usize = 100;

/// The landing view: nothing is scanned until the user asks. A hint and a
/// Scan button.
pub open spec fn idle_view_v(lang: Lang) -> WindowView {
    WindowView {
        modal: None,
        notice: None,
        title: msg(lang, Msg::Title),
        widgets: seq![
            WidgetView::Label { text: msg(lang, Msg::ScanHint), tone: Tone::Weak },
            WidgetView::Button(
                ButtonView {
                    text: msg(lang, Msg::Scan),
                    method: Method::Scan,
                    args: ArgsView::Nothing,
                    primary: true,
                    open_in_tab: false,
                },
            ),
        ],
    }
}

fn button(text: String, method: Method, args: Args, primary: bool, open_in_tab: bool) -> (r: Button)
    ensures
        r@ == (ButtonView { text: text@, method, args: args@, primary, open_in_tab }),
{
    Button { text, method, args, primary, open_in_tab }
}

/// The landing view.
pub fn idle_view(lang: &str) -> (r: Window)
    ensures
        r@ == idle_view_v(lang_of(lang@)),
{
    let l = parse_lang(lang);
    let mut w: Vec<Widget> = Vec::new();
    let a = Widget::Label { text: text(l, Msg::ScanHint), tone: Tone::Weak };
    proof {
        lemma_widget_views_push(w@, a);
    }
    w.push(a);
    let b = Widget::Button(button(text(l, Msg::Scan), Method::Scan, Args::Nothing, true, false));
    proof {
        lemma_widget_views_push(w@, b);
    }
    w.push(b);
    let r = Window { title: text(l, Msg::Title), widgets: w, modal: None, notice: None };
    assert(r@.widgets =~= idle_view_v(l).widgets);
    r
}

/// The table's column headings, in order.
pub open spec fn columns_v(lang: Lang) -> Seq<Seq<char>> {
    seq![
        msg(lang, Msg::ColName),
        msg(lang, Msg::ColVersion),
        msg(lang, Msg::ColPublisher),
        msg(lang, Msg::ColSource),
        msg(lang, Msg::ColScope),
        msg(lang, Msg::ColLocation),
    ]
}

fn columns_in(l: Lang) -> (r: Vec<String>)
    ensures
        string_views(r@) == columns_v(l),
{
    let mut r: Vec<String> = Vec::new();
    r.push(text(l, Msg::ColName));
    r.push(text(l, Msg::ColVersion));
    r.push(text(l, Msg::ColPublisher));
    r.push(text(l, Msg::ColSource));
    r.push(text(l, Msg::ColScope));
    r.push(text(l, Msg::ColLocation));
    assert(string_views(r@) =~= columns_v(l));
    r
}

/// The table's column headings, in order, in the language of `lang`.
pub fn columns(lang: &str) -> (r: Vec<String>)
    ensures
        string_views(r@) == columns_v(lang_of(lang@)),
{
    columns_in(parse_lang(lang))
}

/// The phrase an open action is labelled with.
pub open spec fn open_msg(o: OpenLabel) -> Msg {
    match o {
        OpenLabel::Location => Msg::OpenLocation,
        OpenLabel::File => Msg::OpenFile,
    }
}

fn open_msg_of(o: OpenLabel) -> (r: Msg)
    ensures
        r == open_msg(o),
{
    match o {
        OpenLabel::Location => Msg::OpenLocation,
        OpenLabel::File => Msg::OpenFile,
    }
}

/// The right-click menu for one entry, given how its location opens: About
/// (over the table) and About in a new tab; the open action when the location
/// is a folder or file on disk; and, whenever a path is available, Show in
/// Explorer and Copy path.
pub open spec fn row_menu_v(lang: Lang, d: EntryView, open: Option<OpenLabel>) -> Seq<MenuItemView> {
    seq![
        MenuItemView { label: msg(lang, Msg::About), method: Method::About, open_in_tab: false },
        MenuItemView { label: msg(lang, Msg::AboutTab), method: Method::AboutTab, open_in_tab: true },
    ] + (
    match open {
        Some(o) => seq![
            MenuItemView { label: msg(lang, open_msg(o)), method: Method::OpenLocation, open_in_tab: false },
        ],
        None => Seq::empty(),
    }) + (if has_path_spec(d) {
        seq![
            MenuItemView { label: msg(lang, Msg::Reveal), method: Method::Reveal, open_in_tab: false },
            MenuItemView { label: msg(lang, Msg::CopyPath), method: Method::CopyPath, open_in_tab: false },
        ]
    } else {
        Seq::empty()
    })
}

/// The right-click menu for one entry in language `l`, given how its location
/// opens (what the disk said of it).
pub fn row_menu_with(l: Lang, d: &Entry, open: Option<OpenLabel>) -> (r: Vec<MenuItem>)
    ensures
        menu_views(r@) == row_menu_v(l, d@, open),
{
    let mut items: Vec<MenuItem> = Vec::new();
    let a = MenuItem { label: text(l, Msg::About), method: Method::About, open_in_tab: false };
    proof {
        lemma_menu_views_push(items@, a);
    }
    items.push(a);
    let t = MenuItem { label: text(l, Msg::AboutTab), method: Method::AboutTab, open_in_tab: true };
    proof {
        lemma_menu_views_push(items@, t);
    }
    items.push(t);
    match open {
        Some(o) => {
            let b = MenuItem {
                label: text(l, open_msg_of(o)),
                method: Method::OpenLocation,
                open_in_tab: false,
            };
            proof {
                lemma_menu_views_push(items@, b);
            }
            items.push(b);
        },
        None => {},
    }
    if has_path(d) {
        let c = MenuItem { label: text(l, Msg::Reveal), method: Method::Reveal, open_in_tab: false };
        proof {
            lemma_menu_views_push(items@, c);
        }
        items.push(c);
        let e = MenuItem {
            label: text(l, Msg::CopyPath),
            method: Method::CopyPath,
            open_in_tab: false,
        };
        proof {
            lemma_menu_views_push(items@, e);
        }
        items.push(e);
    }
    assert(menu_views(items@) =~= row_menu_v(l, d@, open));
    items
}

/// The right-click menu for one entry, given what the disk said of its
/// location.
pub fn row_menu_for(lang: &str, d: &Entry, disk: OnDisk) -> (r: Vec<MenuItem>)
    ensures
        menu_views(r@) == row_menu_v(lang_of(lang@), d@, open_label_of(d@, disk)),
{
    row_menu_with(parse_lang(lang), d, open_label_for(d, disk))
}

fn open_label_for(d: &Entry, disk: OnDisk) -> (r: Option<OpenLabel>)
    ensures
        r == open_label_of(d@, disk),
{
    match decide_open(&d.location, disk.is_dir, disk.is_file) {
        Some(a) => Some(a.label),
        None => None,
    }
}

// ------------------------------------------------------------------------
// The pager
// ------------------------------------------------------------------------

/// `a - b`, or zero when `b` is larger.
pub open spec fn sat_sub(a: int, b: int) -> int {
    if a >= b {
        a - b
    } else {
        0
    }
}

/// The last page of the sliding run: five pages from two before `page`,
/// clamped to the last page.
pub open spec fn pager_hi(page: int, count: int) -> int {
    let lo = sat_sub(page, 2);
    if lo + 4 < count - 1 {
        lo + 4
    } else {
        count - 1
    }
}

/// The first page of the sliding run: four before its last, clamped to the
/// first page.
pub open spec fn pager_lo(page: int, count: int) -> int {
    sat_sub(pager_hi(page, count), 4)
}

/// The pages the pager shows, in order: the first page, the sliding run and
/// the last page, each once.
pub open spec fn shown_pages(page: int, count: int) -> Seq<int> {
    let lo = pager_lo(page, count);
    let hi = pager_hi(page, count);
    (if lo > 0 {
        seq![0int]
    } else {
        Seq::empty()
    }) + Seq::new((hi - lo + 1) as nat, |i: int| lo + i) + (if hi < count - 1 {
        seq![count - 1]
    } else {
        Seq::empty()
    })
}

/// The button for page `p` (shown as `p + 1`), highlighted when it is `page`.
pub open spec fn page_button_v(page: int, p: int) -> ItemView {
    ItemView::Button(
        ButtonView {
            text: dec((p + 1) as nat),
            method: Method::Page,
            args: ArgsView::Page(p as usize),
            primary: p == page,
            open_in_tab: false,
        },
    )
}

/// What bridges two pages the pager leaves a gap between.
pub open spec fn gap_v(lang: Lang) -> ItemView {
    ItemView::Label { text: msg(lang, Msg::Gap), tone: Tone::Weak }
}

/// A button for each shown page, with a gap before each page that does not
/// follow the one before it.
pub open spec fn pager_body(lang: Lang, page: int, s: Seq<int>) -> Seq<ItemView>
    decreases s.len(),
{
    if s.len() == 0 {
        Seq::empty()
    } else {
        let gap = if s.len() >= 2 && s.last() > s[s.len() - 2] + 1 {
            seq![gap_v(lang)]
        } else {
            Seq::empty()
        };
        pager_body(lang, page, s.drop_last()) + gap + seq![page_button_v(page, s.last())]
    }
}

/// The bottom pager: `‹ Prev` unless on the first page, the page buttons, and
/// `Next ›` unless on the last page.
pub open spec fn pager_v(lang: Lang, page: int, count: int) -> Seq<ItemView> {
    (if page > 0 {
        seq![
            ItemView::Button(
                ButtonView {
                    text: msg(lang, Msg::Prev),
                    method: Method::Page,
                    args: ArgsView::Page((page - 1) as usize),
                    primary: false,
                    open_in_tab: false,
                },
            ),
        ]
    } else {
        Seq::empty()
    }) + pager_body(lang, page, shown_pages(page, count)) + (if page + 1 < count {
        seq![
            ItemView::Button(
                ButtonView {
                    text: msg(lang, Msg::Next),
                    method: Method::Page,
                    args: ArgsView::Page((page + 1) as usize),
                    primary: false,
                    open_in_tab: false,
                },
            ),
        ]
    } else {
        Seq::empty()
    })
}

/// The shown pages, as a vector.
fn shown_pages_vec(page: usize, page_count: usize) -> (r: Vec<usize>)
    requires
        page_count >= 1,
        page <= usize::MAX - 2,
    ensures
        r@.len() == shown_pages(page as int, page_count as int).len(),
        forall|i: int| 0 <= i < r@.len() ==> r@[i] as int == #[trigger] shown_pages(page as int, page_count as int)[i],
{
    let last = page_count - 1;
    let lo0 = if page >= 2 {
        page - 2
    } else {
        0
    };
    let hi = if lo0 + 4 < last {
        lo0 + 4
    } else {
        last
    };
    let lo = if hi >= 4 {
        hi - 4
    } else {
        0
    };
    let ghost s = shown_pages(page as int, page_count as int);
    assert(lo == pager_lo(page as int, page_count as int));
    assert(hi == pager_hi(page as int, page_count as int));
    let mut r: Vec<usize> = Vec::new();
    let ghost pre: Seq<int> = if lo > 0 {
        seq![0int]
    } else {
        Seq::empty()
    };
    if lo > 0 {
        r.push(0);
    }
    let mut p = lo;
    while p <= hi
        invariant
            lo <= p <= hi + 1,
            hi <= last < usize::MAX,
            r@.len() == pre.len() + (p - lo),
            forall|i: int| 0 <= i < pre.len() ==> r@[i] as int == pre[i],
            forall|i: int| pre.len() <= i < r@.len() ==> r@[i] as int == lo + (i - pre.len()),
        decreases hi + 1 - p,
    {
        r.push(p);
        p += 1;
    }
    if hi < last {
        r.push(last);
    }
    r
}

fn page_button(page: usize, p: usize) -> (r: Item)
    requires
        p < usize::MAX,
    ensures
        r@ == page_button_v(page as int, p as int),
{
    Item::Button(button(decimal(p + 1), Method::Page, Args::Page(p), p == page, false))
}

proof fn lemma_pager_body_step(lang: Lang, page: int, s: Seq<int>, i: int)
    requires
        0 <= i < s.len(),
    ensures
        pager_body(lang, page, s.take(i + 1)) == pager_body(lang, page, s.take(i)) + (if i >= 1
            && s[i] > s[i - 1] + 1 {
            seq![gap_v(lang)]
        } else {
            Seq::empty()
        }) + seq![page_button_v(page, s[i])],
{
    assert(s.take(i + 1).drop_last() =~= s.take(i));
}

/// The bottom pager for `page` of `page_count` pages: a run of five
/// consecutive pages slides with the current page but stays clamped to the
/// ends, with the first and last page always shown and `…` bridging any gap;
/// the current page is highlighted.
pub fn page_buttons(lang: &str, page: usize, page_count: usize) -> (r: Vec<Item>)
    requires
        page_count >= 1,
        page <= usize::MAX - 2,
    ensures
        item_views(r@) == pager_v(lang_of(lang@), page as int, page_count as int),
{
    let l = parse_lang(lang);
    let shown = shown_pages_vec(page, page_count);
    let ghost s = shown_pages(page as int, page_count as int);
    let mut out: Vec<Item> = Vec::new();
    if page > 0 {
        let b = Item::Button(button(text(l, Msg::Prev), Method::Page, Args::Page(page - 1), false, false));
        proof {
            lemma_item_views_push(out@, b);
        }
        out.push(b);
    }
    let ghost pre = item_views(out@);
    assert(pre =~= (if page > 0 {
        seq![
            ItemView::Button(
                ButtonView {
                    text: msg(l, Msg::Prev),
                    method: Method::Page,
                    args: ArgsView::Page((page - 1) as usize),
                    primary: false,
                    open_in_tab: false,
                },
            ),
        ]
    } else {
        Seq::<ItemView>::empty()
    }));
    let mut i: usize = 0;
    while i < shown.len()
        invariant
            shown@.len() == s.len(),
            forall|k: int| 0 <= k < shown@.len() ==> shown@[k] as int == #[trigger] s[k],
            s == shown_pages(page as int, page_count as int),
            page_count >= 1,
            i <= shown.len(),
            item_views(out@) == pre + pager_body(l, page as int, s.take(i as int)),
        decreases shown.len() - i,
    {
        let p = shown[i];
        proof {
            lemma_pager_body_step(l, page as int, s, i as int);
            assert(s[i as int] == p as int);
            assert(s[i as int] <= page_count - 1) by {
                lemma_shown_pages_in_range(page as int, page_count as int, i as int);
            }
        }
        if i >= 1 && p > shown[i - 1] + 1 {
            let g = Item::Label { text: text(l, Msg::Gap), tone: Tone::Weak };
            proof {
                lemma_item_views_push(out@, g);
            }
            out.push(g);
        }
        let b = page_button(page, p);
        proof {
            lemma_item_views_push(out@, b);
        }
        out.push(b);
        assert(item_views(out@) =~= pre + pager_body(l, page as int, s.take(i + 1)));
        i += 1;
    }
    assert(s.take(shown.len() as int) =~= s);
    if page + 1 < page_count {
        let b = Item::Button(button(text(l, Msg::Next), Method::Page, Args::Page(page + 1), false, false));
        proof {
            lemma_item_views_push(out@, b);
        }
        out.push(b);
    }
    assert(item_views(out@) =~= pager_v(l, page as int, page_count as int));
    out
}

/// Every shown page is a page: between the first and the last.
pub proof fn lemma_shown_pages_in_range(page: int, count: int, i: int)
    requires
        count >= 1,
        page >= 0,
        0 <= i < shown_pages(page, count).len(),
    ensures
        0 <= shown_pages(page, count)[i] <= count - 1,
{
}

/// The pager always shows the first and the last page.
pub proof fn lemma_pager_shows_first_and_last(page: int, count: int)
    requires
        count >= 1,
        page >= 0,
    ensures
        shown_pages(page, count).contains(0),
        shown_pages(page, count).contains(count - 1),
{
    let lo = pager_lo(page, count);
    let hi = pager_hi(page, count);
    let s = shown_pages(page, count);
    let pre: Seq<int> = if lo > 0 { seq![0int] } else { Seq::empty() };
    let mid = Seq::new((hi - lo + 1) as nat, |i: int| lo + i);
    if lo > 0 {
        assert(s[0] == 0);
    } else {
        assert(s[0] == mid[0]);
    }
    if hi < count - 1 {
        assert(s[s.len() - 1] == count - 1);
    } else {
        assert(s[pre.len() + (hi - lo)] == mid[hi - lo]);
    }
}

/// The pager shows each page once, in order.
pub proof fn lemma_pager_increasing(page: int, count: int)
    requires
        count >= 1,
        page >= 0,
    ensures
        forall|i: int, j: int|
            0 <= i < j < shown_pages(page, count).len() ==> #[trigger] shown_pages(page, count)[i]
                < #[trigger] shown_pages(page, count)[j],
{
    let lo = pager_lo(page, count);
    let hi = pager_hi(page, count);
    let s = shown_pages(page, count);
    let pre: Seq<int> = if lo > 0 { seq![0int] } else { Seq::empty() };
    let mid = Seq::new((hi - lo + 1) as nat, |i: int| lo + i);
    assert forall|i: int| 0 <= i < s.len() implies #[trigger] s[i] == if i < pre.len() {
        0
    } else if i < pre.len() + mid.len() {
        lo + (i - pre.len())
    } else {
        count - 1
    } by {
        if i < pre.len() {
        } else if i < pre.len() + mid.len() {
            assert(s[i] == mid[i - pre.len()]);
        }
    }
}

/// The current page is always shown.
pub proof fn lemma_pager_shows_current(page: int, count: int)
    requires
        0 <= page < count,
    ensures
        shown_pages(page, count).contains(page),
{
    let lo = pager_lo(page, count);
    let hi = pager_hi(page, count);
    let s = shown_pages(page, count);
    let pre: Seq<int> = if lo > 0 { seq![0int] } else { Seq::empty() };
    let mid = Seq::new((hi - lo + 1) as nat, |i: int| lo + i);
    assert(lo <= page <= hi);
    assert(s[pre.len() + (page - lo)] == mid[page - lo]);
}

/// The sliding run holds five consecutive pages, or every page when there are
/// fewer.
pub proof fn lemma_pager_run_width(page: int, count: int)
    requires
        count >= 1,
        page >= 0,
    ensures
        pager_hi(page, count) - pager_lo(page, count) + 1 == if count < 5 {
            count
        } else {
            5
        },
{
}

// ------------------------------------------------------------------------
// The results
// ------------------------------------------------------------------------

/// The line saying which rows are shown.
pub open spec fn shown_text_v(lang: Lang, start: int, end: int, total: int, page: int, count: int) -> Seq<
    char,
> {
    if total == 0 {
        msg(lang, Msg::NoMatches)
    } else {
        msg(lang, Msg::Showing) + dec((start + 1) as nat) + msg(lang, Msg::RangeDash) + dec(
            end as nat,
        ) + msg(lang, Msg::Of) + dec(total as nat) + msg(lang, Msg::PageWord) + dec(
            (page + 1) as nat,
        ) + msg(lang, Msg::PageSlash) + dec(count as nat)
    }
}

/// The heading over the table: how many programs match, and which are shown.
pub open spec fn heading_v(lang: Lang, start: int, end: int, total: int, page: int, count: int) -> Seq<
    char,
> {
    msg(lang, Msg::HeadingOpen) + dec(total as nat) + msg(lang, Msg::HeadingClose) + shown_text_v(
        lang,
        start,
        end,
        total,
        page,
        count,
    )
}

/// The actions over the table: Refresh, and Make Report (in a new tab) when a
/// report provider is loaded.
pub open spec fn actions_v(lang: Lang, report: bool) -> Seq<ItemView> {
    seq![
        ItemView::Button(
            ButtonView {
                text: msg(lang, Msg::Refresh),
                method: Method::Scan,
                args: ArgsView::Nothing,
                primary: true,
                open_in_tab: false,
            },
        ),
    ] + if report {
        seq![
            ItemView::Button(
                ButtonView {
                    text: msg(lang, Msg::MakeReport),
                    method: Method::ReportConfig,
                    args: ArgsView::Nothing,
                    primary: false,
                    open_in_tab: true,
                },
            ),
        ]
    } else {
        Seq::empty()
    }
}

/// One page of results: the search box holding the query, the actions, a hint,
/// the heading, the table of the rows given (each with its id and menu, a
/// double-click opening its details), and the pager when there is more than
/// one page.
pub open spec fn results_v(
    lang: Lang,
    query: Seq<char>,
    rows: Seq<Seq<Seq<char>>>,
    ids: Seq<Seq<char>>,
    menus: Seq<Seq<MenuItemView>>,
    start: int,
    end: int,
    total: int,
    page: int,
    count: int,
    report: bool,
) -> WindowView {
    WindowView {
        modal: None,
        notice: None,
        title: msg(lang, Msg::Title),
        widgets: seq![
            WidgetView::Input {
                name: "query"@,
                label: msg(lang, Msg::Search),
                placeholder: msg(lang, Msg::SearchPlaceholder),
                default: query,
            },
            WidgetView::Row(actions_v(lang, report)),
            WidgetView::Label { text: msg(lang, Msg::ActionsHint), tone: Tone::Weak },
            WidgetView::Separator,
            WidgetView::Label { text: heading_v(lang, start, end, total, page, count), tone: Tone::Strong },
            WidgetView::Table {
                columns: columns_v(lang),
                rows,
                row_ids: ids,
                row_menus: menus,
                on_activate: Method::About,
                activate_in_tab: false,
            },
        ] + if count > 1 {
            seq![WidgetView::Row(pager_v(lang, page, count))]
        } else {
            Seq::empty()
        },
    }
}

fn heading(l: Lang, start: usize, end: usize, total: usize, page: usize, count: usize) -> (r: String)
    requires
        total != 0 ==> start < usize::MAX && page < usize::MAX,
    ensures
        r@ == heading_v(l, start as int, end as int, total as int, page as int, count as int),
{
    let mut s = text(l, Msg::HeadingOpen);
    push_str(&mut s, decimal(total).as_str());
    push_str(&mut s, crate::i18n::tr(l, Msg::HeadingClose));
    if total == 0 {
        push_str(&mut s, crate::i18n::tr(l, Msg::NoMatches));
    } else {
        push_str(&mut s, crate::i18n::tr(l, Msg::Showing));
        push_str(&mut s, decimal(start + 1).as_str());
        push_str(&mut s, crate::i18n::tr(l, Msg::RangeDash));
        push_str(&mut s, decimal(end).as_str());
        push_str(&mut s, crate::i18n::tr(l, Msg::Of));
        push_str(&mut s, decimal(total).as_str());
        push_str(&mut s, crate::i18n::tr(l, Msg::PageWord));
        push_str(&mut s, decimal(page + 1).as_str());
        push_str(&mut s, crate::i18n::tr(l, Msg::PageSlash));
        push_str(&mut s, decimal(count).as_str());
    }
    assert(s@ =~= heading_v(l, start as int, end as int, total as int, page as int, count as int));
    s
}

fn actions(l: Lang, report: bool) -> (r: Vec<Item>)
    ensures
        item_views(r@) == actions_v(l, report),
{
    let mut a: Vec<Item> = Vec::new();
    let b = Item::Button(button(text(l, Msg::Refresh), Method::Scan, Args::Nothing, true, false));
    proof {
        lemma_item_views_push(a@, b);
    }
    a.push(b);
    if report {
        let c = Item::Button(
            button(text(l, Msg::MakeReport), Method::ReportConfig, Args::Nothing, false, true),
        );
        proof {
            lemma_item_views_push(a@, c);
        }
        a.push(c);
    }
    assert(item_views(a@) =~= actions_v(l, report));
    a
}

/// One page of results. The rows are already filtered, sliced and cached by
/// the caller; this puts them on screen.
pub fn results_view(
    lang: &str,
    query_raw: &str,
    rows: Vec<Vec<String>>,
    ids: Vec<String>,
    menus: Vec<Vec<MenuItem>>,
    range: (usize, usize, usize),
    pages: (usize, usize),
    report: bool,
) -> (r: Window)
    requires
        range.2 != 0 ==> range.0 < usize::MAX && pages.0 < usize::MAX,
        pages.1 > 1 ==> pages.0 <= usize::MAX - 2,
    ensures
        r@ == results_v(
            lang_of(lang@),
            query_raw@,
            rows_views(rows@),
            string_views(ids@),
            menus_views(menus@),
            range.0 as int,
            range.1 as int,
            range.2 as int,
            pages.0 as int,
            pages.1 as int,
            report,
        ),
{
    let l = parse_lang(lang);
    let (start, end, total) = range;
    let (page, page_count) = pages;
    let ghost rv = rows_views(rows@);
    let ghost iv = string_views(ids@);
    let ghost mv = menus_views(menus@);
    let mut w: Vec<Widget> = Vec::new();
    let x0 = Widget::Input {
        name: owned("query"),
        label: text(l, Msg::Search),
        placeholder: text(l, Msg::SearchPlaceholder),
        default: owned(query_raw),
    };
    proof {
        lemma_widget_views_push(w@, x0);
    }
    w.push(x0);
    let x1 = Widget::Row(actions(l, report));
    proof {
        lemma_widget_views_push(w@, x1);
    }
    w.push(x1);
    let x2 = Widget::Label { text: text(l, Msg::ActionsHint), tone: Tone::Weak };
    proof {
        lemma_widget_views_push(w@, x2);
    }
    w.push(x2);
    let x3 = Widget::Separator;
    proof {
        lemma_widget_views_push(w@, x3);
    }
    w.push(x3);
    let x4 = Widget::Label { text: heading(l, start, end, total, page, page_count), tone: Tone::Strong };
    proof {
        lemma_widget_views_push(w@, x4);
    }
    w.push(x4);
    let x5 = Widget::Table {
        columns: columns_in(l),
        rows,
        row_ids: ids,
        row_menus: menus,
        on_activate: Method::About,
        activate_in_tab: false,
    };
    proof {
        lemma_widget_views_push(w@, x5);
    }
    w.push(x5);
    if page_count > 1 {
        let x6 = Widget::Row(page_buttons(lang, page, page_count));
        proof {
            lemma_widget_views_push(w@, x6);
        }
        w.push(x6);
    }
    let r = Window { title: text(l, Msg::Title), widgets: w, modal: None, notice: None };
    assert(r@.widgets =~= results_v(
        l,
        query_raw@,
        rv,
        iv,
        mv,
        start as int,
        end as int,
        total as int,
        page as int,
        page_count as int,
        report,
    ).widgets);
    r
}

// ------------------------------------------------------------------------
// One entry
// ------------------------------------------------------------------------

/// A field's value as shown: `—` when it is empty.
pub open spec fn shown_value(lang: Lang, v: Seq<char>) -> Seq<char> {
    if v.len() == 0 {
        msg(lang, Msg::EmptyValue)
    } else {
        v
    }
}

/// One row of the details: the column's heading and the entry's value.
pub open spec fn field_row_v(lang: Lang, m: Msg, v: Seq<char>) -> WidgetView {
    WidgetView::Row(
        seq![
            ItemView::Label { text: msg(lang, m), tone: Tone::Strong },
            ItemView::Label { text: shown_value(lang, v), tone: Tone::Plain },
        ],
    )
}

/// The actions of the details: open the location (when it opens on disk),
/// then Show in Explorer and Copy path (whenever a path is available), each
/// sending the row's id and whether the details are in a tab of their own.
pub open spec fn about_actions_v(
    lang: Lang,
    d: EntryView,
    id: Seq<char>,
    open: Option<OpenLabel>,
    in_tab: bool,
) -> Seq<ItemView> {
    (match open {
        Some(o) => seq![
            ItemView::Button(
                ButtonView {
                    text: msg(lang, open_msg(o)),
                    method: Method::OpenLocation,
                    args: ArgsView::Row { id, in_tab },
                    primary: true,
                    open_in_tab: false,
                },
            ),
        ],
        None => Seq::empty(),
    }) + if has_path_spec(d) {
        seq![
            ItemView::Button(
                ButtonView {
                    text: msg(lang, Msg::Reveal),
                    method: Method::Reveal,
                    args: ArgsView::Row { id, in_tab },
                    primary: false,
                    open_in_tab: false,
                },
            ),
            ItemView::Button(
                ButtonView {
                    text: msg(lang, Msg::CopyPath),
                    method: Method::CopyPath,
                    args: ArgsView::Row { id, in_tab },
                    primary: false,
                    open_in_tab: false,
                },
            ),
        ]
    } else {
        Seq::empty()
    }
}

/// The name the host knows the details pop-up by.
pub const ABOUT_MODAL: &'static str = "programs.about";

/// The width the details pop-up asks for.
pub const ABOUT_WIDTH: u32 = 560;

/// The button that closes the details pop-up: back to the results.
pub open spec fn close_v(lang: Lang) -> ButtonView {
    ButtonView {
        text: msg(lang, Msg::Close),
        method: Method::Ui,
        args: ArgsView::Nothing,
        primary: false,
        open_in_tab: false,
    }
}

/// The details of one entry, titled with its name (which the host shows, so
/// the view does not repeat it): one row per field, then the actions after a
/// separator when there are any. Over the table (`Screen::Modal`) it is a
/// pop-up with a Close button; in a tab it is a plain screen, and its actions
/// say they come from the tab.
pub open spec fn about_v(
    lang: Lang,
    d: EntryView,
    id: Seq<char>,
    open: Option<OpenLabel>,
    screen: Screen,
) -> WindowView {
    let acts = about_actions_v(lang, d, id, open, screen == Screen::Tab);
    WindowView {
        modal: if screen == Screen::Modal {
            Some((ABOUT_MODAL@, ABOUT_WIDTH))
        } else {
            None
        },
        notice: None,
        title: d.name,
        widgets: seq![
            field_row_v(lang, Msg::ColName, d.name),
            field_row_v(lang, Msg::ColVersion, d.version),
            field_row_v(lang, Msg::ColPublisher, d.publisher),
            field_row_v(lang, Msg::ColSource, d.source),
            field_row_v(lang, Msg::ColScope, d.scope),
            field_row_v(lang, Msg::ColLocation, d.location),
        ] + (if acts.len() > 0 {
            seq![WidgetView::Separator, WidgetView::Row(acts)]
        } else {
            Seq::empty()
        }) + if screen == Screen::Modal {
            seq![WidgetView::Button(close_v(lang))]
        } else {
            Seq::empty()
        },
    }
}

fn shown_of(l: Lang, v: &String) -> (r: String)
    ensures
        r@ == shown_value(l, v@),
{
    if v.as_str().unicode_len() == 0 {
        text(l, Msg::EmptyValue)
    } else {
        copy_string(v)
    }
}

fn field_row(l: Lang, m: Msg, v: &String) -> (r: Widget)
    ensures
        r@ == field_row_v(l, m, v@),
{
    let mut items: Vec<Item> = Vec::new();
    let a = Item::Label { text: text(l, m), tone: Tone::Strong };
    proof {
        lemma_item_views_push(items@, a);
    }
    items.push(a);
    let b = Item::Label { text: shown_of(l, v), tone: Tone::Plain };
    proof {
        lemma_item_views_push(items@, b);
    }
    items.push(b);
    let r = Widget::Row(items);
    assert(r@ == field_row_v(l, m, v@)) by {
        assert(item_views(items@) =~= seq![
            ItemView::Label { text: msg(l, m), tone: Tone::Strong },
            ItemView::Label { text: shown_value(l, v@), tone: Tone::Plain },
        ]);
    }
    r
}

/// The details of one entry, shown with row id `id` in language `l` on
/// `screen`, given how its location opens (what the disk said of it).
pub fn about_with(l: Lang, d: &Entry, id: &str, open: Option<OpenLabel>, screen: Screen) -> (r: Window)
    ensures
        r@ == about_v(l, d@, id@, open, screen),
{
    let in_tab = match screen {
        Screen::Tab => true,
        Screen::Modal => false,
    };
    let mut w: Vec<Widget> = Vec::new();
    let f0 = field_row(l, Msg::ColName, &d.name);
    proof {
        lemma_widget_views_push(w@, f0);
    }
    w.push(f0);
    let f1 = field_row(l, Msg::ColVersion, &d.version);
    proof {
        lemma_widget_views_push(w@, f1);
    }
    w.push(f1);
    let f2 = field_row(l, Msg::ColPublisher, &d.publisher);
    proof {
        lemma_widget_views_push(w@, f2);
    }
    w.push(f2);
    let f3 = field_row(l, Msg::ColSource, &d.source);
    proof {
        lemma_widget_views_push(w@, f3);
    }
    w.push(f3);
    let f4 = field_row(l, Msg::ColScope, &d.scope);
    proof {
        lemma_widget_views_push(w@, f4);
    }
    w.push(f4);
    let f5 = field_row(l, Msg::ColLocation, &d.location);
    proof {
        lemma_widget_views_push(w@, f5);
    }
    w.push(f5);
    let mut acts: Vec<Item> = Vec::new();
    match open {
        Some(o) => {
            let b = Item::Button(
                button(text(l, open_msg_of(o)), Method::OpenLocation, Args::Row { id: owned(id), in_tab }, true, false),
            );
            proof {
                lemma_item_views_push(acts@, b);
            }
            acts.push(b);
        },
        None => {},
    }
    if has_path(d) {
        let b = Item::Button(button(text(l, Msg::Reveal), Method::Reveal, Args::Row { id: owned(id), in_tab }, false, false));
        proof {
            lemma_item_views_push(acts@, b);
        }
        acts.push(b);
        let c = Item::Button(
            button(text(l, Msg::CopyPath), Method::CopyPath, Args::Row { id: owned(id), in_tab }, false, false),
        );
        proof {
            lemma_item_views_push(acts@, c);
        }
        acts.push(c);
    }
    assert(item_views(acts@) =~= about_actions_v(l, d@, id@, open, in_tab));
    if acts.len() > 0 {
        let s = Widget::Separator;
        proof {
            lemma_widget_views_push(w@, s);
        }
        w.push(s);
        let row = Widget::Row(acts);
        proof {
            lemma_widget_views_push(w@, row);
        }
        w.push(row);
    }
    let modal = match screen {
        Screen::Modal => {
            let c = Widget::Button(button(text(l, Msg::Close), Method::Ui, Args::Nothing, false, false));
            proof {
                lemma_widget_views_push(w@, c);
            }
            w.push(c);
            Some(Modal { name: owned(ABOUT_MODAL), width: ABOUT_WIDTH })
        },
        Screen::Tab => None,
    };
    let r = Window { title: copy_string(&d.name), widgets: w, modal, notice: None };
    assert(r@.widgets =~= about_v(l, d@, id@, open, screen).widgets);
    r
}

/// The details of one entry, given what the disk said of its location.
pub fn about_view(lang: &str, d: &Entry, id: &str, screen: Screen, disk: OnDisk) -> (r: Window)
    ensures
        r@ == about_v(lang_of(lang@), d@, id@, open_label_of(d@, disk), screen),
{
    about_with(parse_lang(lang), d, id, open_label_for(d, disk), screen)
}

/// What a row action opens when the entry it names is no longer in the scan:
/// ids are positions in the last scan, so an id from an older one can point at
/// nothing. It says so in an error notice too.
pub open spec fn stale_view_v(lang: Lang) -> WindowView {
    WindowView {
        modal: None,
        notice: Some(NoticeView { level: Level::Error, text: msg(lang, Msg::Gone) }),
        title: msg(lang, Msg::StaleTitle),
        widgets: seq![WidgetView::Label { text: msg(lang, Msg::StaleText), tone: Tone::Weak }],
    }
}

/// The view about a row that is gone.
pub fn stale_view(lang: &str) -> (r: Window)
    ensures
        r@ == stale_view_v(lang_of(lang@)),
{
    let l = parse_lang(lang);
    let mut w: Vec<Widget> = Vec::new();
    let a = Widget::Label { text: text(l, Msg::StaleText), tone: Tone::Weak };
    proof {
        lemma_widget_views_push(w@, a);
    }
    w.push(a);
    let n = Notice { level: Level::Error, text: text(l, Msg::Gone) };
    let r = Window { title: text(l, Msg::StaleTitle), widgets: w, modal: None, notice: Some(n) };
    assert(r@.widgets =~= stale_view_v(l).widgets);
    r
}


/// Each item of the pager's body is a gap or the button of one of the pages
/// it shows.
proof fn lemma_pager_body_items(lang: Lang, page: int, s: Seq<int>, i: int)
    requires
        0 <= i < pager_body(lang, page, s).len(),
    ensures
        pager_body(lang, page, s)[i] == gap_v(lang) || exists|j: int|
            0 <= j < s.len() && pager_body(lang, page, s)[i] == #[trigger] page_button_v(page, s[j]),
    decreases s.len(),
{
    let init = s.drop_last();
    let b = pager_body(lang, page, init);
    let gap = if s.len() >= 2 && s.last() > s[s.len() - 2] + 1 {
        seq![gap_v(lang)]
    } else {
        Seq::empty()
    };
    assert(pager_body(lang, page, s) == b + gap + seq![page_button_v(page, s.last())]);
    if i < b.len() {
        lemma_pager_body_items(lang, page, init, i);
        if pager_body(lang, page, s)[i] != gap_v(lang) {
            let j = choose|j: int| 0 <= j < init.len() && b[i] == #[trigger] page_button_v(page, init[j]);
            assert(init[j] == s[j]);
        }
    } else if i < b.len() + gap.len() {
    } else {
        assert(pager_body(lang, page, s)[i] == page_button_v(page, s[s.len() - 1]));
    }
}

/// The pager's buttons go where they say: the button reading `n + 1` turns to
/// page `n` (the page its number names), `‹ Prev` to the page before and
/// `Next ›` to the page after.
pub proof fn lemma_pager_buttons_go_where_they_say(lang: Lang, page: int, count: int, i: int, n: nat)
    requires
        0 <= page < count,
        count <= usize::MAX,
        0 <= i < pager_v(lang, page, count).len(),
    ensures
        pager_v(lang, page, count)[i] matches ItemView::Button(b) ==> {
            &&& b.method == Method::Page
            &&& b.text == dec(n + 1) ==> b.args == ArgsView::Page(n as usize)
            &&& b.text == msg(lang, Msg::Prev) ==> b.args == ArgsView::Page((page - 1) as usize)
            &&& b.text == msg(lang, Msg::Next) ==> b.args == ArgsView::Page((page + 1) as usize)
        },
{
    reveal_strlit("‹ Prev");
    reveal_strlit("‹ Назад");
    reveal_strlit("Next ›");
    reveal_strlit("Далі ›");
    let v = pager_v(lang, page, count);
    let sp = shown_pages(page, count);
    let body = pager_body(lang, page, sp);
    let pre = if page > 0 {
        seq![
            ItemView::Button(
                ButtonView {
                    text: msg(lang, Msg::Prev),
                    method: Method::Page,
                    args: ArgsView::Page((page - 1) as usize),
                    primary: false,
                    open_in_tab: false,
                },
            ),
        ]
    } else {
        Seq::empty()
    };
    let post = if page + 1 < count {
        seq![
            ItemView::Button(
                ButtonView {
                    text: msg(lang, Msg::Next),
                    method: Method::Page,
                    args: ArgsView::Page((page + 1) as usize),
                    primary: false,
                    open_in_tab: false,
                },
            ),
        ]
    } else {
        Seq::empty()
    };
    assert(v == pre + body + post);
    lemma_dec_digits(n + 1);
    let dn = dec(n + 1);
    assert(0x30 <= dn[0] as u32 <= 0x39);
    assert(msg(lang, Msg::Prev)[0] as u32 == 0x2039);
    assert(msg(lang, Msg::Next)[0] as u32 == 0x4e || msg(lang, Msg::Next)[0] as u32 == 0x414);
    if i < pre.len() {
        assert(v[i] == pre[0]);
        assert(msg(lang, Msg::Prev) != dn);
        assert(msg(lang, Msg::Prev) != msg(lang, Msg::Next));
    } else if i < pre.len() + body.len() {
        let k = i - pre.len();
        assert(v[i] == body[k]);
        lemma_pager_body_items(lang, page, sp, k);
        if body[k] != gap_v(lang) {
            let j = choose|j: int| 0 <= j < sp.len() && body[k] == #[trigger] page_button_v(page, sp[j]);
            lemma_shown_pages_in_range(page, count, j);
            let p = sp[j];
            lemma_dec_digits((p + 1) as nat);
            let dp = dec((p + 1) as nat);
            assert(0x30 <= dp[0] as u32 <= 0x39);
            assert(dp != msg(lang, Msg::Prev));
            assert(dp != msg(lang, Msg::Next));
            if dp == dn {
                lemma_dec_injective((p + 1) as nat, n + 1);
            }
        }
    } else {
        assert(v[i] == post[0]);
        assert(msg(lang, Msg::Next) != dn);
        assert(msg(lang, Msg::Prev) != msg(lang, Msg::Next));
    }
}

} // verus!
