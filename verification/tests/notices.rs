use programs::entry::{entry, Entry, OnDisk};
use programs::handler::{Outcome, Programs, RowAction};
use programs::inventory::Inventory;
use programs::ui::{Item, Level, Method, Screen, Widget, Window};


/// The disk's answer for every entry: nothing there.
fn nowhere(e: &[Entry]) -> Vec<OnDisk> {
    vec![OnDisk { is_dir: false, is_file: false }; e.len()]
}

fn synth(n: usize) -> Vec<Entry> {
    (0..n)
        .map(|i| {
            entry(
                "test",
                format!("prog{i:04}"),
                String::new(),
                String::new(),
                String::new(),
                "system",
            )
        })
        .collect()
}

/// A scanned table, so row id "0" resolves to something.
fn scanned() -> Programs {
    let mut p = Programs::default();
    p.render("en", &synth(3), &nowhere(&synth(3)), "", 0, false);
    p
}

fn has_table(v: &Window) -> bool {
    v.widgets.iter().any(|w| matches!(w, Widget::Table { .. }))
}

/// Every text a view puts on screen, rows included.
fn widget_texts(v: &Window) -> Vec<String> {
    let mut out = Vec::new();
    for w in &v.widgets {
        match w {
            Widget::Label { text, .. } => out.push(text.clone()),
            Widget::Button(b) => out.push(b.text.clone()),
            Widget::Row(items) => {
                for i in items {
                    match i {
                        Item::Label { text, .. } => out.push(text.clone()),
                        Item::Button(b) => out.push(b.text.clone()),
                    }
                }
            }
            _ => {}
        }
    }
    out
}

fn notice_of(v: &Window) -> Option<(Level, String)> {
    v.notice.as_ref().map(|n| (n.level, n.text.clone()))
}

/// Acting on a row the user can see never replaces what they were looking at:
/// the answer is the same screen, plus a word about what happened.
#[test]
fn a_row_action_answers_with_the_screen_it_came_from() {
    let mut p = Programs::default();

    let copied = p.acted("en", "0", false, false, RowAction::Copy, Outcome::Done, &[], OnDisk { is_dir: false, is_file: false });
    assert_eq!(notice_of(&copied), Some((Level::Done, "Path copied to the clipboard.".into())));
    // Still the table, not some acknowledgement screen of its own.
    assert!(has_table(&copied));

    let failed = p.acted("en", "0", false, false, RowAction::Copy, Outcome::NoClipboard, &[], OnDisk { is_dir: false, is_file: false });
    let (level, text) = notice_of(&failed).expect("a failure is worth saying");
    assert_eq!(level, Level::Error);
    assert!(text.contains("clipboard"), "{text}");
}

/// Opening a file manager shows itself, so only the case where nothing
/// opened speaks.
#[test]
fn what_succeeds_visibly_stays_quiet() {
    let mut p = Programs::default();

    let opened = p.acted("en", "0", false, false, RowAction::Open, Outcome::Done, &[], OnDisk { is_dir: false, is_file: false });
    assert_eq!(notice_of(&opened), None);

    let nothing = p.acted("en", "0", false, false, RowAction::Open, Outcome::NothingThere, &[], OnDisk { is_dir: false, is_file: false });
    assert_eq!(notice_of(&nothing).map(|(l, _)| l), Some(Level::Error));

    let revealed = p.acted("en", "0", false, false, RowAction::Reveal, Outcome::Done, &[], OnDisk { is_dir: false, is_file: false });
    assert_eq!(notice_of(&revealed), None);
}

/// Row ids are positions in the last scan, so one from an older scan can
/// point at nothing. That is worth saying.
#[test]
fn an_entry_that_is_gone_says_so() {
    let p = Programs::default();
    let v = p.about("en", "4242", Screen::Modal, OnDisk { is_dir: false, is_file: false });
    let (level, text) = notice_of(&v).expect("a stale row is worth saying");
    assert_eq!(level, Level::Error);
    assert!(!text.contains("notice."), "the key leaked: {text}");
    assert!(!text.is_empty());
}

/// An action taken from the detail tab comes back to the detail tab.
#[test]
fn an_action_in_a_tab_keeps_the_tab() {
    let mut p = Programs::default();
    let v = p.acted("en", "4242", true, false, RowAction::Copy, Outcome::Done, &[], OnDisk { is_dir: false, is_file: false });
    // No table: this is the entry's own screen, not the results.
    assert!(!has_table(&v));

    let mut q = scanned();
    let w = q.acted("en", "1", true, false, RowAction::Copy, Outcome::Done, &[], OnDisk { is_dir: false, is_file: false });
    assert_eq!(w.title.as_str(), "prog0001");
    assert!(w.modal.is_none());
    assert_eq!(notice_of(&w).map(|(l, _)| l), Some(Level::Done));
}

/// The count a scan reports is filled in, in whichever language asked.
#[test]
fn the_scan_notice_carries_its_count() {
    for lang in ["en", "uk"] {
        let mut p = Programs::default();
        let entries = synth(17);
        let inv = Inventory { os: "linux".into(), note: String::new(), total: 17, entries };
        let v = p.scan(lang, "", &inv, &nowhere(&inv.entries), false);
        let (level, said) = notice_of(&v).expect("a scan says what it found");
        assert_eq!(level, Level::Done);
        assert!(said.contains("17"), "{lang}: {said}");
        assert!(!said.contains("{total}"), "{lang}: placeholder left: {said}");
    }
}

/// Double-clicking a row, and About, open the details over the table.
#[test]
fn a_second_look_at_a_row_opens_over_the_table() {
    let v = scanned().about("en", "0", Screen::Modal, OnDisk { is_dir: false, is_file: false });
    let modal = v.modal.clone().expect("the details should be a pop-up");
    assert_eq!(modal.name.as_str(), "programs.about");
    assert!(modal.width > 0, "a pop-up asks for its width");
    // A pop-up needs a way out the user would think to press.
    assert!(widget_texts(&v).iter().any(|t| t == "Close"), "{v:?}");
}

/// The same details in a tab are a plain screen: a tab closes itself.
#[test]
fn the_same_details_in_a_tab_are_not_a_pop_up() {
    let v = scanned().about("en", "0", Screen::Tab, OnDisk { is_dir: false, is_file: false });
    assert!(v.modal.is_none(), "a tab is not a pop-up: {v:?}");
    assert!(!widget_texts(&v).iter().any(|t| t == "Close"));
    // Same entry either way: only the frame differs.
    assert_eq!(v.title.as_str(), "prog0000");
}

/// Every row offers both readings, and the tab one is the only one that opens
/// a tab.
#[test]
fn a_row_offers_both_ways_of_reading_it() {
    let v = Programs::default().render("en", &synth(1), &nowhere(&synth(1)), "", 0, false);
    let menus = v
        .widgets
        .iter()
        .find_map(|w| match w {
            Widget::Table { row_menus, .. } => Some(row_menus.clone()),
            _ => None,
        })
        .expect("row_menus");
    let items = &menus[0];
    let about = items.iter().find(|i| i.method == Method::About).expect("About");
    assert_eq!(about.label.as_str(), "About");
    assert!(!about.open_in_tab, "About opens a pop-up");
    let tabbed = items.iter().find(|i| i.method == Method::AboutTab).expect("About in a new tab");
    assert!(tabbed.open_in_tab);
}

/// Double-click must not open a tab: the details open where the table is.
#[test]
fn double_click_opens_it_where_the_table_is() {
    let mut p = Programs::default();
    let v = p.render("en", &synth(3), &nowhere(&synth(3)), "", 0, false);
    let (method, in_tab) = v
        .widgets
        .iter()
        .find_map(|w| match w {
            Widget::Table { on_activate, activate_in_tab, .. } => Some((*on_activate, *activate_in_tab)),
            _ => None,
        })
        .expect("on_activate");
    assert_eq!(method, Method::About);
    assert!(!in_tab);
}

/// The actions of the details say where they come from, so their answer goes
/// back there.
#[test]
fn the_details_actions_carry_their_frame() {
    row_args_in(Screen::Tab, true);
    row_args_in(Screen::Modal, false);
}

fn row_args_in(screen: Screen, want: bool) {
    let d = entry("opt", "vendor".into(), String::new(), String::new(), "/opt/vendor".into(), "system");
    let v = programs::view::about_with(programs::i18n::Lang::En, &d, "3", None, screen);
    let found = v.widgets.iter().any(|w| match w {
        Widget::Row(items) => items.iter().any(|i| match i {
            Item::Button(b) => b.args == programs::ui::Args::Row { id: "3".into(), in_tab: want },
            _ => false,
        }),
        _ => false,
    });
    assert!(found, "{v:?}");
}
