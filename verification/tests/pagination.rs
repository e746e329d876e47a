use programs::entry::{entry, Entry, OnDisk};
use programs::handler::Programs;
use programs::ui::{Item, Screen, Widget, Window};

/// `n` entries, named so their order is their index.

/// The disk's answer for every entry: nothing there.
fn nowhere(e: &[Entry]) -> Vec<OnDisk> {
    vec![OnDisk { is_dir: false, is_file: false }; e.len()]
}

fn synth(n: usize) -> Vec<Entry> {
    (0..n)
        .map(|i| {
            entry(
                "test",
                format!("prog{i:04}"),
                String::new(),
                String::new(),
                String::new(),
                "system",
            )
        })
        .collect()
}

fn table_of(v: &Window) -> (&Vec<Vec<String>>, &Vec<String>) {
    v.widgets
        .iter()
        .find_map(|w| match w {
            Widget::Table { rows, row_ids, .. } => Some((rows, row_ids)),
            _ => None,
        })
        .unwrap()
}

fn rows_len(v: &Window) -> usize {
    table_of(v).0.len()
}

/// The texts of the last row of the view: the pager when there is one.
fn pager_texts(v: &Window) -> Vec<String> {
    v.widgets
        .iter()
        .rev()
        .find_map(|w| match w {
            Widget::Row(items) => Some(items.clone()),
            _ => None,
        })
        .unwrap_or_default()
        .iter()
        .map(|i| match i {
            Item::Label { text, .. } => text.clone(),
            Item::Button(b) => b.text.clone(),
        })
        .collect()
}

fn slices_pages_of_100_in(lang: &str) {
    let mut p = Programs::default();
    let entries = synth(250); // 3 pages: 100 / 100 / 50

    // Page index 1 -> items 101..200, ids keep the original indices.
    let v = p.render(lang, &entries, &nowhere(&entries), "", 1, false);
    assert_eq!(rows_len(&v), 100);
    assert_eq!(table_of(&v).1[0].as_str(), "100");
    let pager = pager_texts(&v);
    assert!(pager.iter().any(|s| s == "‹ Prev"));
    assert!(pager.iter().any(|s| s == "Next ›"));

    // Last page -> 50 rows, no Next.
    let v3 = p.render(lang, &entries, &nowhere(&entries), "", 2, false);
    assert_eq!(rows_len(&v3), 50);
    assert!(!pager_texts(&v3).iter().any(|s| s == "Next ›"));

    // An out-of-range page clamps to the last page.
    assert_eq!(rows_len(&p.render(lang, &entries, &nowhere(&entries), "", 999, false)), 50);
}

fn one_page_has_no_pager_in(lang: &str) {
    let mut p = Programs::default();
    let v = p.render(lang, &synth(30), &nowhere(&synth(30)), "", 0, false);
    assert_eq!(rows_len(&v), 30);
    // No pager row (only the actions row), so no page-turn buttons.
    assert!(pager_texts(&v).iter().all(|s| s != "Next ›" && s != "‹ Prev"));
}

fn pager_windows_match_spec_in(lang: &str) {
    let mut p = Programs::default();
    let entries = synth(6500); // 65 pages of 100

    // Start: 1 2 3 4 5 … 65 ›   (no Prev)
    assert_eq!(
        pager_texts(&p.render(lang, &entries, &nowhere(&entries), "", 0, false)),
        ["1", "2", "3", "4", "5", "…", "65", "Next ›"]
    );
    // Middle (page index 34 → label 35): ‹ 1 … 33 34 35 36 37 … 65 ›
    assert_eq!(
        pager_texts(&p.render(lang, &entries, &nowhere(&entries), "", 34, false)),
        ["‹ Prev", "1", "…", "33", "34", "35", "36", "37", "…", "65", "Next ›"]
    );
    // End: ‹ 1 … 61 62 63 64 65   (no Next)
    assert_eq!(
        pager_texts(&p.render(lang, &entries, &nowhere(&entries), "", 64, false)),
        ["‹ Prev", "1", "…", "61", "62", "63", "64", "65"]
    );
}

#[test]
fn lib_slices_pages_of_100() {
    slices_pages_of_100_in("en");
}

#[test]
fn lib_one_page_has_no_pager() {
    one_page_has_no_pager_in("en");
}

#[test]
fn lib_pager_windows_match_spec() {
    pager_windows_match_spec_in("en");
}

#[test]
fn pagination_slices_pages_of_100() {
    slices_pages_of_100_in("en");
}

#[test]
fn pagination_one_page_has_no_pager() {
    one_page_has_no_pager_in("en");
}

#[test]
fn pagination_pager_windows_match_spec() {
    pager_windows_match_spec_in("en");
}

/// The pager is words as much as arrows, so it turns pages in Ukrainian too.
#[test]
fn the_pager_speaks_the_active_language() {
    let mut p = Programs::default();
    let v = p.render("uk", &synth(250), &nowhere(&synth(250)), "", 1, false);
    let pager = pager_texts(&v);
    assert!(pager.iter().any(|s| s == "‹ Назад"), "{pager:?}");
    assert!(pager.iter().any(|s| s == "Далі ›"), "{pager:?}");
    // The page numbers are numbers in every language.
    assert!(pager.iter().any(|s| s == "3"));
}

/// Row ids are positions in the scan, whatever the page, and a row action on
/// an id shown finds that very row.
#[test]
fn a_row_id_leads_back_to_its_row() {
    let mut p = Programs::default();
    let entries = synth(250);
    let v = p.render("en", &entries, &nowhere(&entries), "", 2, false);
    assert_eq!(table_of(&v).1[0].as_str(), "200");
    assert_eq!(table_of(&v).1[49].as_str(), "249");
    assert_eq!(p.about("en", "200", Screen::Tab, OnDisk { is_dir: false, is_file: false }).title.as_str(), "prog0200");
    assert_eq!(p.about("en", "249", Screen::Tab, OnDisk { is_dir: false, is_file: false }).title.as_str(), "prog0249");
    // An id from another page is not on this one.
    assert_eq!(p.about("en", "5", Screen::Tab, OnDisk { is_dir: false, is_file: false }).title.as_str(), "Program");
}

/// A search keeps each row's position in the scan as its id, and matches
/// without regard to case.
#[test]
fn a_search_keeps_positions_and_ignores_case() {
    let mut p = Programs::default();
    let entries = synth(250);
    let v = p.render("en", &entries, &nowhere(&entries), "PROG012", 0, false);
    assert_eq!(rows_len(&v), 10);
    assert_eq!(table_of(&v).1[0].as_str(), "120");
    assert_eq!(table_of(&v).1[9].as_str(), "129");
    assert_eq!(table_of(&v).0[3][0].as_str(), "prog0123");
    // One page only: no pager.
    assert!(pager_texts(&v).iter().all(|s| s != "Next ›" && s != "‹ Prev"));
}

/// Nothing matches: an empty table, and the page asked for clamps to the one page.
#[test]
fn a_search_that_matches_nothing_shows_an_empty_table() {
    let mut p = Programs::default();
    let v = p.render("en", &synth(20), &nowhere(&synth(20)), "nothing-matches-this", 3, false);
    assert_eq!(rows_len(&v), 0);
    assert_eq!(p.last_page, 0);
    assert!(p.last.is_empty());
}
