//! The screens the module draws, as data: windows of labels, buttons, rows,
//! a search box, selects and the results table. The host renders them; what
//! each holds is decided here.

use vstd::prelude::*;

use crate::text::string_views;

verus! {

/// The capability this module provides; every action a screen offers calls
/// one of its methods.
pub const CAPABILITY: &'static str = "programs.local";

/// A method of the capability.
#[derive(Clone, Copy, Debug, PartialEq, Eq)]
pub enum Method {
    /// The landing view: the saved results, or a Scan button.
    Ui,
    /// Enumerate now, save the results and show them.
    Scan,
    /// Turn to another page of the saved results.
    Page,
    /// The raw inventory, for other modules.
    List,
    /// An entry's details, over the table.
    About,
    /// An entry's details, in a tab of their own.
    AboutTab,
    /// Open where an entry is installed.
    OpenLocation,
    /// Show an entry's path in the file manager.
    Reveal,
    /// Copy an entry's path.
    CopyPath,
    /// The report form.
    ReportConfig,
    /// Build a report from the saved results.
    MakeReport,
}

/// The name a method is called by.
pub open spec fn method_name(m: Method) -> Seq<char> {
    match m {
        Method::Ui => "ui"@,
        Method::Scan => "scan"@,
        Method::Page => "page"@,
        Method::List => "list"@,
        Method::About => "about"@,
        Method::AboutTab => "about_tab"@,
        Method::OpenLocation => "open_location"@,
        Method::Reveal => "reveal"@,
        Method::CopyPath => "copy_path"@,
        Method::ReportConfig => "report_config"@,
        Method::MakeReport => "make_report"@,
    }
}

/// The name a method is called by.
pub fn name_of(m: Method) -> (r: &'static str)
    ensures
        r@ == method_name(m),
{
    match m {
        Method::Ui => "ui",
        Method::Scan => "scan",
        Method::Page => "page",
        Method::List => "list",
        Method::About => "about",
        Method::AboutTab => "about_tab",
        Method::OpenLocation => "open_location",
        Method::Reveal => "reveal",
        Method::CopyPath => "copy_path",
        Method::ReportConfig => "report_config",
        Method::MakeReport => "make_report",
    }
}

/// Different methods are called by different names.
pub proof fn lemma_method_name_injective(a: Method, b: Method)
    ensures
        method_name(a) == method_name(b) ==> a == b,
{
    reveal_strlit("ui");
    reveal_strlit("scan");
    reveal_strlit("page");
    reveal_strlit("list");
    reveal_strlit("about");
    reveal_strlit("about_tab");
    reveal_strlit("open_location");
    reveal_strlit("reveal");
    reveal_strlit("copy_path");
    reveal_strlit("report_config");
    reveal_strlit("make_report");
    if method_name(a) == method_name(b) {
        assert(method_name(a).len() == method_name(b).len());
        assert(method_name(a)[0] == method_name(b)[0]);
    }
}

/// The method called `name`, if there is one.
pub fn parse_method(name: &str) -> (r: Option<Method>)
    ensures
        r matches Some(m) ==> method_name(m) == name@,
        r matches Some(m) ==> forall|k: Method| method_name(k) == name@ ==> k == m,
        r is None ==> forall|m: Method| method_name(m) != name@,
{
    let all = [
        Method::Ui,
        Method::Scan,
        Method::Page,
        Method::List,
        Method::About,
        Method::AboutTab,
        Method::OpenLocation,
        Method::Reveal,
        Method::CopyPath,
        Method::ReportConfig,
        Method::MakeReport,
    ];
    let mut i: usize = 0;
    while i < 11
        invariant
            i <= 11,
            all@ == seq![
                Method::Ui,
                Method::Scan,
                Method::Page,
                Method::List,
                Method::About,
                Method::AboutTab,
                Method::OpenLocation,
                Method::Reveal,
                Method::CopyPath,
                Method::ReportConfig,
                Method::MakeReport,
            ],
            forall|k: int| 0 <= k < i ==> method_name(#[trigger] all@[k]) != name@,
        decreases 11 - i,
    {
        let m = all[i];
        if crate::text::eq_str(name_of(m), name) {
            proof {
                assert forall|k: Method| method_name(k) == name@ implies k == m by {
                    lemma_method_name_injective(k, m);
                }
            }
            return Some(m);
        }
        i += 1;
    }
    assert forall|m: Method| method_name(m) != name@ by {
        let k: int = match m {
            Method::Ui => 0,
            Method::Scan => 1,
            Method::Page => 2,
            Method::List => 3,
            Method::About => 4,
            Method::AboutTab => 5,
            Method::OpenLocation => 6,
            Method::Reveal => 7,
            Method::CopyPath => 8,
            Method::ReportConfig => 9,
            Method::MakeReport => 10,
        };
        assert(all@[k] == m);
    }
    None
}

/// How a label is set.
#[derive(Clone, Copy, Debug, PartialEq, Eq)]
pub enum Tone {
    Plain,
    Weak,
    Strong,
}

/// What a button sends with its call.
#[derive(Clone, Debug, PartialEq, Eq)]
pub enum Args {
    Nothing,
    /// `{ "page": n }`
    Page(usize),
    /// `{ "id": id, "in_tab": in_tab }`: the row acted on, and whether the
    /// action comes from the entry's own tab.
    Row { id: String, in_tab: bool },
}

pub enum ArgsView {
    Nothing,
    Page(usize),
    Row { id: Seq<char>, in_tab: bool },
}

impl View for Args {
    type V = ArgsView;

    open spec fn view(&self) -> ArgsView {
        match self {
            Args::Nothing => ArgsView::Nothing,
            Args::Page(n) => ArgsView::Page(*n),
            Args::Row { id, in_tab } => ArgsView::Row { id: id@, in_tab: *in_tab },
        }
    }
}

/// A button: its text, the method it calls with its arguments, whether it is
/// the primary action, and whether its answer opens in a new tab.
#[derive(Clone, Debug, PartialEq, Eq)]
pub struct Button {
    pub text: String,
    pub method: Method,
    pub args: Args,
    pub primary: bool,
    pub open_in_tab: bool,
}

pub struct ButtonView {
    pub text: Seq<char>,
    pub method: Method,
    pub args: ArgsView,
    pub primary: bool,
    pub open_in_tab: bool,
}

impl View for Button {
    type V = ButtonView;

    open spec fn view(&self) -> ButtonView {
        ButtonView {
            text: self.text@,
            method: self.method,
            args: self.args@,
            primary: self.primary,
            open_in_tab: self.open_in_tab,
        }
    }
}

/// An item of a row's right-click menu: its label, the method it calls with
/// the row's id, and whether its answer opens in a new tab.
#[derive(Clone, Debug, PartialEq, Eq)]
pub struct MenuItem {
    pub label: String,
    pub method: Method,
    pub open_in_tab: bool,
}

pub struct MenuItemView {
    pub label: Seq<char>,
    pub method: Method,
    pub open_in_tab: bool,
}

impl View for MenuItem {
    type V = MenuItemView;

    open spec fn view(&self) -> MenuItemView {
        MenuItemView { label: self.label@, method: self.method, open_in_tab: self.open_in_tab }
    }
}

pub open spec fn menu_views(m: Seq<MenuItem>) -> Seq<MenuItemView> {
    m.map_values(|x: MenuItem| x@)
}

/// What a row holds: labels and buttons.
#[derive(Clone, Debug, PartialEq, Eq)]
pub enum Item {
    Label { text: String, tone: Tone },
    Button(Button),
}

pub enum ItemView {
    Label { text: Seq<char>, tone: Tone },
    Button(ButtonView),
}

impl View for Item {
    type V = ItemView;

    open spec fn view(&self) -> ItemView {
        match self {
            Item::Label { text, tone } => ItemView::Label { text: text@, tone: *tone },
            Item::Button(b) => ItemView::Button(b@),
        }
    }
}

pub open spec fn item_views(s: Seq<Item>) -> Seq<ItemView> {
    s.map_values(|x: Item| x@)
}

/// One widget of a window.
#[derive(Clone, Debug, PartialEq, Eq)]
pub enum Widget {
    Label { text: String, tone: Tone },
    Button(Button),
    Separator,
    /// Labels and buttons side by side.
    Row(Vec<Item>),
    /// A text box whose value is sent as `name`.
    Input { name: String, label: String, placeholder: String, default: String },
    /// A choice among `options`, sent as `name`.
    Select { name: String, options: Vec<String>, label: String },
    /// The results table: headings, one row of cells per entry, the id each row
    /// sends back, each row's right-click menu, the method a double-click
    /// calls with the row's id, and whether its answer opens in a new tab.
    Table {
        columns: Vec<String>,
        rows: Vec<Vec<String>>,
        row_ids: Vec<String>,
        row_menus: Vec<Vec<MenuItem>>,
        on_activate: Method,
        activate_in_tab: bool,
    },
}

pub enum WidgetView {
    Label { text: Seq<char>, tone: Tone },
    Button(ButtonView),
    Separator,
    Row(Seq<ItemView>),
    Input { name: Seq<char>, label: Seq<char>, placeholder: Seq<char>, default: Seq<char> },
    Select { name: Seq<char>, options: Seq<Seq<char>>, label: Seq<char> },
    Table {
        columns: Seq<Seq<char>>,
        rows: Seq<Seq<Seq<char>>>,
        row_ids: Seq<Seq<char>>,
        row_menus: Seq<Seq<MenuItemView>>,
        on_activate: Method,
        activate_in_tab: bool,
    },
}

pub open spec fn rows_views(rows: Seq<Vec<String>>) -> Seq<Seq<Seq<char>>> {
    rows.map_values(|r: Vec<String>| string_views(r@))
}

pub open spec fn menus_views(menus: Seq<Vec<MenuItem>>) -> Seq<Seq<MenuItemView>> {
    menus.map_values(|m: Vec<MenuItem>| menu_views(m@))
}

impl View for Widget {
    type V = WidgetView;

    open spec fn view(&self) -> WidgetView {
        match self {
            Widget::Label { text, tone } => WidgetView::Label { text: text@, tone: *tone },
            Widget::Button(b) => WidgetView::Button(b@),
            Widget::Separator => WidgetView::Separator,
            Widget::Row(items) => WidgetView::Row(item_views(items@)),
            Widget::Input { name, label, placeholder, default } => WidgetView::Input {
                name: name@,
                label: label@,
                placeholder: placeholder@,
                default: default@,
            },
            Widget::Select { name, options, label } => WidgetView::Select {
                name: name@,
                options: string_views(options@),
                label: label@,
            },
            Widget::Table { columns, rows, row_ids, row_menus, on_activate, activate_in_tab } => WidgetView::Table {
                columns: string_views(columns@),
                rows: rows_views(rows@),
                row_ids: string_views(row_ids@),
                row_menus: menus_views(row_menus@),
                on_activate: *on_activate,
                activate_in_tab: *activate_in_tab,
            },
        }
    }
}

pub open spec fn widget_views(s: Seq<Widget>) -> Seq<WidgetView> {
    s.map_values(|x: Widget| x@)
}

/// How a notice is set: something went as asked, or something went wrong.
#[derive(Clone, Copy, Debug, PartialEq, Eq)]
pub enum Level {
    Done,
    Error,
}

/// A word about what just happened, shown over the screen.
#[derive(Clone, Debug, PartialEq, Eq)]
pub struct Notice {
    pub level: Level,
    pub text: String,
}

pub struct NoticeView {
    pub level: Level,
    pub text: Seq<char>,
}

impl View for Notice {
    type V = NoticeView;

    open spec fn view(&self) -> NoticeView {
        NoticeView { level: self.level, text: self.text@ }
    }
}

pub open spec fn notice_view(n: Option<Notice>) -> Option<NoticeView> {
    match n {
        Some(x) => Some(x@),
        None => None,
    }
}

/// A pop-up's frame: the name the host knows it by and its width.
#[derive(Clone, Debug, PartialEq, Eq)]
pub struct Modal {
    pub name: String,
    pub width: u32,
}

pub open spec fn modal_view(m: Option<Modal>) -> Option<(Seq<char>, u32)> {
    match m {
        Some(x) => Some((x.name@, x.width)),
        None => None,
    }
}

/// Where a screen is shown: over the screen it was asked from (a pop-up), or
/// in a tab of its own.
#[derive(Clone, Copy, Debug, PartialEq, Eq)]
pub enum Screen {
    Modal,
    Tab,
}

/// A screen: its title, its widgets top to bottom, its pop-up frame when it
/// opens over another screen, and the notice it carries, if any.
#[derive(Clone, Debug, PartialEq, Eq)]
pub struct Window {
    pub title: String,
    pub widgets: Vec<Widget>,
    pub modal: Option<Modal>,
    pub notice: Option<Notice>,
}

pub struct WindowView {
    pub title: Seq<char>,
    pub widgets: Seq<WidgetView>,
    pub modal: Option<(Seq<char>, u32)>,
    pub notice: Option<NoticeView>,
}

impl View for Window {
    type V = WindowView;

    open spec fn view(&self) -> WindowView {
        WindowView {
            title: self.title@,
            widgets: widget_views(self.widgets@),
            modal: modal_view(self.modal),
            notice: notice_view(self.notice),
        }
    }
}

/// `w` carrying notice `n` in place of its own.
pub open spec fn with_notice(w: WindowView, n: Option<NoticeView>) -> WindowView {
    WindowView { title: w.title, widgets: w.widgets, modal: w.modal, notice: n }
}

pub proof fn lemma_widget_views_push(s: Seq<Widget>, x: Widget)
    ensures
        widget_views(s.push(x)) == widget_views(s).push(x@),
{
    assert(widget_views(s.push(x)) =~= widget_views(s).push(x@));
}

pub proof fn lemma_item_views_push(s: Seq<Item>, x: Item)
    ensures
        item_views(s.push(x)) == item_views(s).push(x@),
{
    assert(item_views(s.push(x)) =~= item_views(s).push(x@));
}

pub proof fn lemma_menu_views_push(s: Seq<MenuItem>, x: MenuItem)
    ensures
        menu_views(s.push(x)) == menu_views(s).push(x@),
{
    assert(menu_views(s.push(x)) =~= menu_views(s).push(x@));
}

} // verus!
