use programs::entry::{entry, Entry};
use programs::i18n::{choice, options, Content, Scope, CONTENT, FORMATS, SCOPES};
use programs::linux::desktop::FoundFile;
use programs::linux::local::DirItem;
use programs::linux::{list_programs, LinuxScan};
use programs::report::report_spec;

/// `n` entries, named so their order is their index.
fn synth(n: usize) -> Vec<Entry> {
    (0..n)
        .map(|i| {
            entry(
                "test",
                format!("prog{i:04}"),
                String::new(),
                String::new(),
                String::new(),
                "system",
            )
        })
        .collect()
}

/// A machine with something in every source.
fn sample_scan() -> LinuxScan {
    LinuxScan {
        dpkg: Some("bash\t5.2.15-2\tGNU <bash@gnu.org>\tinstalled\nold\t1\tx\tconfig-files\n".to_string()),
        rpm: Some("vim\t9.0-1\t(none)\n".to_string()),
        flatpak: Some("Firefox\t120.0\tflathub\tuser\n".to_string()),
        snap: Some("Name  Version  Rev  Tracking  Publisher  Notes\ncore  16  1  latest/stable  canonical✓  core\n".to_string()),
        desktop: vec![
            vec![FoundFile {
                name: "gimp.desktop".to_string(),
                location: "/usr/share/applications/gimp.desktop".to_string(),
                text: Some("[Desktop Entry]\nType=Application\nName=GIMP\n".to_string()),
            }],
            vec![],
            vec![],
        ],
        local_bin: vec![DirItem {
            name: "tool".to_string(),
            location: "/home/u/.local/bin/tool".to_string(),
            is_file: true,
            is_dir: false,
            mode: 0o755,
        }],
        opt: vec![DirItem {
            name: "vendor".to_string(),
            location: "/opt/vendor".to_string(),
            is_file: false,
            is_dir: true,
            mode: 0o755,
        }],
    }
}

/// Whatever is installed, the envelope every collector fills is the same.
#[test]
fn linux_envelope_shape_is_consistent() {
    let v = list_programs(&sample_scan());
    assert_eq!(v.os.as_str(), "linux");
    let entries = &v.entries;
    let total = v.total as u64;
    assert_eq!(total, entries.len() as u64);
    // Every entry fills the schema: a source, a name and one of the two scopes
    // (version, publisher and location are text, possibly empty).
    for e in entries {
        assert!(!e.source.is_empty(), "missing source");
        assert!(!e.name.is_empty(), "missing name");
        assert!(e.scope == "system" || e.scope == "user", "missing scope");
    }
    assert_eq!(total, 7);
}

/// A report choice is shown translated but means something fixed.
#[test]
fn a_choice_made_in_either_language_means_the_same_thing() {
    for lang in ["en", "uk"] {
        let shown = options(lang, &FORMATS);
        assert_eq!(choice(lang, &FORMATS, &shown[1]), "markdown");
        assert_eq!(choice(lang, &FORMATS, &shown[3]), "csv");

        let scope = choice(lang, &SCOPES, &options(lang, &SCOPES)[2]);
        assert!(matches!(scope, Scope::User));
        let content = choice(lang, &CONTENT, &options(lang, &CONTENT)[1]);
        assert!(matches!(content, Content::Tables));
    }
    // Something never offered is nobody's choice: fall back to the first.
    assert_eq!(choice("en", &FORMATS, "PDF, surely"), "view");
    // An English label sent while the UI is Ukrainian is not a Ukrainian choice.
    assert!(matches!(choice("uk", &SCOPES, "System only"), Scope::All));
}

/// The document a report provider is handed is written in the user's language.
#[test]
fn the_report_document_speaks_the_active_language() {
    let entries = synth(3);
    let spec = report_spec("uk", &entries, "markdown", Content::All, Scope::All);
    assert_eq!(spec.title.as_str(), "Звіт про встановлені програми");
    let summary = format!("{:?}", spec.summary);
    assert!(summary.contains('3'), "{summary}");
    assert!(!summary.contains("{total}"), "placeholder left: {summary}");
    // The columns are headings, so they are translated; `format` is a protocol
    // value, so it is not.
    let s = format!("{:?}", spec);
    assert!(s.contains("Видавець"), "columns not translated");
    assert_eq!(spec.format.as_str(), "markdown");
}

/// The same envelope when only some sources answer, or none.
#[test]
fn envelope_shape_is_consistent() {
    let mut scan = sample_scan();
    scan.dpkg = None;
    scan.rpm = None;
    scan.snap = None;
    let v = list_programs(&scan);
    assert_eq!(v.os.as_str(), "linux");
    assert_eq!(v.total, v.entries.len());
    assert_eq!(v.total, 4);
    for e in &v.entries {
        assert!(!e.source.is_empty(), "missing source");
        assert!(!e.name.is_empty(), "missing name");
        assert!(e.scope == "system" || e.scope == "user", "missing scope");
    }

    let empty = LinuxScan {
        dpkg: None,
        rpm: None,
        flatpak: None,
        snap: None,
        desktop: Vec::new(),
        local_bin: Vec::new(),
        opt: Vec::new(),
    };
    let none = list_programs(&empty);
    assert_eq!(none.os.as_str(), "linux");
    assert_eq!(none.total, 0);
    assert!(none.entries.is_empty());
}
