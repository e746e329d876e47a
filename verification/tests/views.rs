use programs::entry::{entry, Entry, OnDisk, OpenLabel};
use programs::i18n::Lang;
use programs::handler::Programs;
use programs::report::{exported_view, report_config, report_failed_view};
use programs::ui::{Item, MenuItem, Screen, Widget, Window};
use programs::view::{about_view, about_with, idle_view, row_menu_with, stale_view};


/// The disk's answer for every entry: nothing there.
fn nowhere(e: &[Entry]) -> Vec<OnDisk> {
    vec![OnDisk { is_dir: false, is_file: false }; e.len()]
}

fn synth(n: usize) -> Vec<Entry> {
    (0..n)
        .map(|i| {
            entry(
                "test",
                format!("prog{i:04}"),
                String::new(),
                String::new(),
                String::new(),
                "system",
            )
        })
        .collect()
}

fn item_text(i: &Item) -> String {
    match i {
        Item::Label { text, .. } => text.clone(),
        Item::Button(b) => b.text.clone(),
    }
}

fn menu_texts(m: &[MenuItem]) -> Vec<String> {
    m.iter().map(|x| x.label.clone()).collect()
}

/// The texts a widget puts on screen, one per label or button.
fn widget_texts(w: &Widget) -> Vec<String> {
    match w {
        Widget::Label { text, .. } => vec![text.clone()],
        Widget::Button(b) => vec![b.text.clone()],
        Widget::Separator => vec![],
        Widget::Row(items) => items.iter().map(item_text).collect(),
        Widget::Input { .. } | Widget::Select { .. } | Widget::Table { .. } => vec![],
    }
}

/// Everything a view shows, in one string: its title, labels, buttons, form
/// fields, table and menus.
fn shown(v: &Window) -> String {
    let mut out = vec![v.title.clone()];
    if let Some(n) = &v.notice {
        out.push(n.text.clone());
    }
    for w in &v.widgets {
        out.extend(widget_texts(w));
        match w {
            Widget::Input { label, placeholder, default, .. } => {
                out.push(label.clone());
                out.push(placeholder.clone());
                out.push(default.clone());
            }
            Widget::Select { options, label, .. } => {
                out.push(label.clone());
                out.extend(options.iter().cloned());
            }
            Widget::Table { columns, rows, row_menus, .. } => {
                out.extend(columns.iter().cloned());
                for r in rows {
                    out.extend(r.iter().cloned());
                }
                for m in row_menus {
                    out.extend(menu_texts(m));
                }
            }
            _ => {}
        }
    }
    out.join("\n")
}

/// Every screen the module can draw, in one language.
fn every_view(lang: &str) -> Vec<Window> {
    let mut p = Programs::default();
    let entries = synth(250);
    vec![
        idle_view(lang),
        p.render(lang, &entries, &nowhere(&entries), "", 1, true),
        p.render(lang, &entries, &nowhere(&entries), "nothing-matches-this", 0, false),
        about_view(lang, &entries[0], "0", Screen::Modal, OnDisk { is_dir: false, is_file: false }),
        about_view(lang, &entries[0], "0", Screen::Tab, OnDisk { is_dir: false, is_file: false }),
        stale_view(lang),
        report_config(lang),
        exported_view(lang),
        report_failed_view(lang, "boom".into()),
    ]
}

/// Rendering in Ukrainian must not leave English prose behind.
#[test]
fn the_ukrainian_views_carry_no_english_prose() {
    const ENGLISH: [&str; 12] = [
        "Installed programs",
        "Scan this machine",
        "Search",
        "Refresh",
        "Make Report",
        "Show in Explorer",
        "Copy path",
        "Report options",
        "All programs",
        "Tables and charts",
        "showing",
        "Publisher",
    ];
    for v in every_view("uk") {
        let s = shown(&v);
        for phrase in ENGLISH {
            assert!(!s.contains(phrase), "English left in a Ukrainian view: {phrase}");
        }
    }
}

/// The English views do say those things: the check above is not vacuous.
#[test]
fn the_english_views_say_what_they_are() {
    let all: Vec<String> = every_view("en").iter().map(shown).collect();
    let all = all.join("\n");
    for phrase in ["Installed programs", "Scan this machine", "Search", "Refresh", "Make Report", "Publisher"] {
        assert!(all.contains(phrase), "{phrase}");
    }
}

/// The details name the entry once, not twice: the host draws the view's
/// title itself, so the name appears inside only as the value of Name.
#[test]
fn the_details_do_not_repeat_their_own_title() {
    for (which, where_) in [("pop-up", Screen::Modal), ("tab", Screen::Tab)] {
        let mut p = Programs::default();
        p.render("en", &synth(3), &nowhere(&synth(3)), "", 0, false);
        let v = p.about("en", "0", where_, OnDisk { is_dir: false, is_file: false });
        let title = v.title.clone();
        assert!(!title.is_empty(), "no title to compare against: {v:?}");
        assert_eq!(title.as_str(), "prog0000");
        let headings = v.widgets.iter().flat_map(widget_texts).filter(|t| *t == title).count();
        assert_eq!(headings, 1, "{which}: the title is repeated {headings} times inside the view: {v:?}");
    }
}

/// Before a scan the module enumerates nothing: its landing view is a Scan
/// button, and it stays so until a scan.
#[test]
fn the_landing_view_waits_for_a_scan() {
    let mut p = Programs::default();
    let v = p.ui("en", &[], false);
    assert_eq!(v, idle_view("en"));
    assert!(!p.scanned);
    assert!(shown(&v).contains("Scan this machine"));
}

/// An empty value is shown as a dash-like placeholder, never as nothing.
#[test]
fn the_details_show_every_field() {
    let d = entry("dpkg", "bash".to_string(), "5.2".to_string(), String::new(), String::new(), "system");
    let v = about_view("en", &d, "7", Screen::Tab, OnDisk { is_dir: false, is_file: false });
    let s = shown(&v);
    for part in ["—", "Name", "bash", "Version", "5.2", "Publisher", "Source", "dpkg", "Scope", "system", "Location"] {
        assert!(s.contains(part), "{part} missing: {s}");
    }
}

/// A row's menu: About (in a new tab), the open action the disk allows, and
/// reveal and copy whenever a path can be had.
#[test]
fn a_row_menu_offers_what_the_entry_allows() {
    let opt = entry("opt", "vendor".into(), String::new(), String::new(), "/opt/vendor".into(), "system");
    let m = row_menu_with(Lang::En, &opt, Some(OpenLabel::Location));
    let labels: Vec<&str> = m.iter().map(|x| x.label.as_str()).collect();
    assert_eq!(labels, ["About", "About in a new tab", "Open location", "Show in Explorer", "Copy path"]);
    assert!(!m[0].open_in_tab);
    assert!(m[1].open_in_tab);
    assert!(!m[2].open_in_tab);

    let file = row_menu_with(Lang::Uk, &opt, Some(OpenLabel::File));
    assert_eq!(file[2].label.as_str(), "Відкрити файл");

    // Neither a recorded path nor a package: only the two readings.
    let bare = entry("snap", "core".into(), String::new(), String::new(), String::new(), "system");
    assert_eq!(row_menu_with(Lang::En, &bare, None).len(), 2);
    // A package with no recorded path still resolves a path through its manager.
    let pkg = entry("dpkg", "bash".into(), String::new(), String::new(), String::new(), "system");
    assert_eq!(row_menu_with(Lang::En, &pkg, None).len(), 4);
}

#[test]
fn the_details_offer_the_actions_of_the_row() {
    let opt = entry("opt", "vendor".into(), String::new(), String::new(), "/opt/vendor".into(), "system");
    let w = about_with(Lang::En, &opt, "4", Some(OpenLabel::Location), Screen::Tab);
    assert_eq!(w.title.as_str(), "vendor");
    let s = shown(&w);
    assert!(s.contains("Open location") && s.contains("Show in Explorer") && s.contains("Copy path"), "{s}");
    let none = about_with(Lang::En, &entry("snap", "core".into(), String::new(), String::new(), String::new(), "system"), "1", None, Screen::Tab);
    assert!(!shown(&none).contains("Copy path"));
    assert!(!none.widgets.iter().any(|w| matches!(w, Widget::Separator)));
}

/// The menu's open action follows what the disk said of the row's location.
#[test]
fn a_row_menu_opens_what_the_disk_has() {
    let opt = entry("opt", "vendor".into(), String::new(), String::new(), "/opt/vendor".into(), "system");
    let folder = programs::view::row_menu_for("en", &opt, OnDisk { is_dir: true, is_file: false });
    assert_eq!(folder[2].label.as_str(), "Open location");
    let file = programs::view::row_menu_for("en", &opt, OnDisk { is_dir: false, is_file: true });
    assert_eq!(file[2].label.as_str(), "Open file");
    let gone = programs::view::row_menu_for("en", &opt, OnDisk { is_dir: false, is_file: false });
    assert_eq!(gone[2].label.as_str(), "Show in Explorer");
    let d = about_view("en", &opt, "2", Screen::Tab, OnDisk { is_dir: false, is_file: true });
    assert!(shown(&d).contains("Open file"));
}
