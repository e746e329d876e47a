use programs::entry::{entry, Entry, OnDisk};
use programs::handler::{copy_log, Call, Programs, Reply};
use programs::i18n::{choice, options, Content, Scope, CONTENT, FORMATS, SCOPES};
use programs::inventory::Inventory;
use programs::report::{exported_view, report_outcome, report_spec, ReportAnswer};
use programs::ui::{name_of, parse_method, Method};

fn mk(source: &str, name: &str, scope: &str) -> Entry {
    entry(source, name.to_string(), String::new(), String::new(), String::new(), scope)
}

fn sample() -> Vec<Entry> {
    vec![
        mk("dpkg", "bash", "system"),
        mk("flatpak", "firefox", "user"),
        mk("dpkg", "zsh", "system"),
        mk("local-bin", "tool", "user"),
        mk("opt", "vendor", "system"),
        mk("dpkg", "vim", "system"),
    ]
}

#[test]
fn a_report_counts_and_charts_the_scan() {
    let spec = report_spec("en", &sample(), "markdown", Content::All, Scope::All);
    assert_eq!(spec.title.as_str(), "Installed Programs Report");
    assert_eq!(spec.subtitle.as_str(), "6 programs · 4 system · 2 user");
    assert_eq!(spec.summary, ["Total programs: 6", "System-wide: 4", "User: 2"]);
    assert_eq!(spec.format.as_str(), "markdown");
    assert_eq!(spec.charts.len(), 1);
    assert_eq!(spec.charts[0].title.as_str(), "Programs by source");
    let bars: Vec<(&str, usize)> = spec.charts[0].data.iter().map(|p| (p.label.as_str(), p.value)).collect();
    // Larger counts first, equal counts by source.
    assert_eq!(bars, [("dpkg", 3), ("flatpak", 1), ("local-bin", 1), ("opt", 1)]);
    assert_eq!(spec.sections.len(), 1);
    assert_eq!(spec.sections[0].heading.as_str(), "Installed programs");
    assert_eq!(spec.sections[0].columns, ["Name", "Version", "Publisher", "Source", "Scope", "Location"]);
    assert_eq!(spec.sections[0].rows.len(), 6);
    assert_eq!(spec.sections[0].rows[1][0].as_str(), "firefox");
    // The bars add up to the rows of the table.
    let total: usize = spec.charts[0].data.iter().map(|p| p.value).sum();
    assert_eq!(total, spec.sections[0].rows.len());
}

#[test]
fn a_report_scope_and_content_select_what_it_holds() {
    let user = report_spec("en", &sample(), "csv", Content::All, Scope::User);
    // The counts are over every entry; the chart and table over the chosen ones.
    assert_eq!(user.subtitle.as_str(), "6 programs · 4 system · 2 user");
    let bars: Vec<(&str, usize)> = user.charts[0].data.iter().map(|p| (p.label.as_str(), p.value)).collect();
    assert_eq!(bars, [("flatpak", 1), ("local-bin", 1)]);
    let rows: Vec<&str> = user.sections[0].rows.iter().map(|r| r[0].as_str()).collect();
    assert_eq!(rows, ["firefox", "tool"]);

    let tables = report_spec("en", &sample(), "view", Content::Tables, Scope::System);
    assert!(tables.charts.is_empty());
    assert_eq!(tables.sections[0].rows.len(), 4);

    let charts = report_spec("en", &sample(), "html", Content::Charts, Scope::All);
    assert!(charts.sections.is_empty());
    assert_eq!(charts.charts.len(), 1);

    // Nothing covered: no chart, an empty table.
    let none = report_spec("en", &[mk("dpkg", "x", "system")], "view", Content::All, Scope::User);
    assert!(none.charts.is_empty());
    assert!(none.sections[0].rows.is_empty());
}

#[test]
fn a_choice_label_leads_back_to_its_meaning() {
    assert_eq!(options("en", &FORMATS), ["In-app view", "Markdown", "HTML", "CSV"]);
    assert_eq!(options("en", &SCOPES).len(), 3);
    for lang in ["en", "uk"] {
        for (i, want) in ["view", "markdown", "html", "csv"].iter().enumerate() {
            assert_eq!(choice(lang, &FORMATS, &options(lang, &FORMATS)[i]), *want);
        }
        assert_eq!(choice(lang, &CONTENT, &options(lang, &CONTENT)[2]), Content::Charts);
        assert_eq!(choice(lang, &SCOPES, &options(lang, &SCOPES)[1]), Scope::System);
        assert_eq!(choice(lang, &SCOPES, ""), Scope::All);
    }
}

#[test]
fn what_a_report_request_shows() {
    assert_eq!(report_outcome("en", ReportAnswer::Rendered), None);
    assert_eq!(report_outcome("en", ReportAnswer::Written), Some(exported_view("en")));
    let failed = report_outcome("en", ReportAnswer::Failed("boom".into())).unwrap();
    assert!(format!("{failed:?}").contains("boom"));
}

fn call(lang: &str) -> Call {
    Call {
        lang: lang.to_string(),
        report: false,
        query: String::new(),
        page: 0,
        id: String::new(),
        in_tab: false,
        format: String::new(),
        content: String::new(),
        scope: String::new(),
    }
}

fn inventory() -> Inventory {
    let entries = sample();
    Inventory { os: "linux".into(), note: String::new(), total: entries.len(), entries }
}

#[test]
fn an_unknown_method_is_refused_by_name() {
    let mut p = Programs::default();
    let r = p.invoke("frobnicate", &call("en"), None, &[], OnDisk { is_dir: false, is_file: false });
    assert_eq!(r, Reply::NoMethod("programs has no method frobnicate".to_string()));
    assert!(!p.scanned);
}

#[test]
fn every_method_is_found_by_its_name() {
    let all = [
        Method::Ui,
        Method::Scan,
        Method::Page,
        Method::List,
        Method::About,
        Method::OpenLocation,
        Method::Reveal,
        Method::CopyPath,
        Method::ReportConfig,
        Method::MakeReport,
    ];
    for m in all {
        assert_eq!(parse_method(name_of(m)), Some(m));
    }
    assert_eq!(name_of(Method::OpenLocation), "open_location");
    assert_eq!(parse_method("Scan"), None);
}

#[test]
fn a_scan_is_remembered_and_reported() {
    let mut p = Programs::default();
    let six = vec![OnDisk { is_dir: false, is_file: false }; 6];
    let mut c = call("en");
    c.query = "DPKG".into();
    let r = p.invoke("scan", &c, Some(inventory()), &six, OnDisk { is_dir: false, is_file: false });
    assert!(matches!(r, Reply::Show(_)));
    assert!(p.scanned);
    assert_eq!(p.last.len(), 3);
    assert_eq!(p.last[0].id.as_str(), "0");
    assert_eq!(p.last[2].id.as_str(), "5");
    assert_eq!(p.invoke("list", &c, None, &six, OnDisk { is_dir: false, is_file: false }), Reply::Listing);

    let mut row = call("en");
    row.id = "2".into();
    match p.invoke("copy_path", &row, None, &six, OnDisk { is_dir: false, is_file: false }) {
        Reply::CopyPath(Some(_)) => {}
        other => panic!("{other:?}"),
    }
    row.id = "1".into();
    assert_eq!(p.invoke("reveal", &row, None, &six, OnDisk { is_dir: false, is_file: false }), Reply::Reveal(None));

    let mut rep = call("en");
    rep.format = "CSV".into();
    rep.content = "Tables only".into();
    rep.scope = "User only".into();
    match p.invoke("make_report", &rep, None, &six, OnDisk { is_dir: false, is_file: false }) {
        Reply::Report(spec) => {
            assert_eq!(spec.format.as_str(), "csv");
            assert!(spec.charts.is_empty());
            assert_eq!(spec.sections[0].rows.len(), 2);
        }
        other => panic!("{other:?}"),
    }
}

#[test]
fn a_copy_is_logged() {
    assert_eq!(copy_log("/opt/x", true), "programs: copied path to clipboard: /opt/x");
    assert_eq!(copy_log("/opt/x", false), "programs: couldn't copy path — no clipboard tool found");
}

/// Opening a row's location goes by what the disk said of that very row's
/// location, which the module names before the call.
#[test]
fn a_row_opens_as_the_disk_says() {
    let mut p = Programs::default();
    let mut entries = sample();
    entries[4].location = "/opt/vendor".into();
    let inv = Inventory { os: "linux".into(), note: String::new(), total: entries.len(), entries };
    let none = vec![OnDisk { is_dir: false, is_file: false }; 6];
    p.invoke("scan", &call("en"), Some(inv), &none, OnDisk { is_dir: false, is_file: false });
    assert_eq!(p.location_of("4").as_deref(), Some("/opt/vendor"));
    assert_eq!(p.location_of("99"), None);
    let mut c = call("en");
    c.id = "4".into();
    match p.invoke("open_location", &c, None, &none, OnDisk { is_dir: true, is_file: false }) {
        Reply::Open(Some(a)) => {
            assert_eq!(a.value.as_str(), "/opt/vendor");
            assert_eq!(a.target.as_str(), "path");
        }
        other => panic!("{other:?}"),
    }
    assert_eq!(p.invoke("open_location", &c, None, &none, OnDisk { is_dir: false, is_file: false }), Reply::Open(None));
}
