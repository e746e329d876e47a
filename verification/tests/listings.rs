use programs::entry::{entry, open_kind, resolved_path, Entry, OnDisk, OpenLabel, Resolution};
use programs::inventory::sort_by_name;
use programs::clipboard::clipboard_tools;
use programs::inventory::unsupported_listing;
use programs::linux::desktop::{
    collect_desktop, desktop_dirs, has_desktop_extension, parse_desktop, FoundFile,
};
use programs::linux::local::{collect_local_bin, collect_opt, is_executable, local_bin_dir, DirItem};
use programs::linux::packages::{
    collect_dpkg, collect_flatpak, collect_rpm, collect_snap, listing_command, Manager,
};
use programs::linux::{
    list_programs, listing_lines, package_command, package_file, package_path, pick_package_file, LinuxScan,
};
use programs::windows::uninstall::{collect, dedup, UninstallKey};
use programs::windows::{list_programs as windows_list_programs, package_path as windows_package_path, WindowsScan};

fn names(v: &[Entry]) -> Vec<&str> {
    v.iter().map(|e| e.name.as_str()).collect()
}

#[test]
fn dpkg_keeps_installed_packages_only() {
    let mut out = Vec::new();
    collect_dpkg(
        &mut out,
        "bash\t5.2.15-2\tGNU <bash@gnu.org>\tinstalled\nold\t1\tx\tconfig-files\n\t1\tx\tinstalled\nshort\t1\n",
    );
    assert_eq!(out.len(), 1);
    assert_eq!(out[0], entry("dpkg", "bash".into(), "5.2.15-2".into(), "GNU <bash@gnu.org>".into(), String::new(), "system"));
}

#[test]
fn rpm_drops_a_vendor_of_none() {
    let mut out = Vec::new();
    collect_rpm(&mut out, "vim\t9.0-1\t(none)\nzsh\t5.9-1\tFedora Project\r\n\n");
    assert_eq!(names(&out), ["vim", "zsh"]);
    assert_eq!(out[0].publisher.as_str(), "");
    assert_eq!(out[1].publisher.as_str(), "Fedora Project");
    assert_eq!(out[1].version.as_str(), "5.9-1");
    assert_eq!(out[1].scope.as_str(), "system");
}

#[test]
fn flatpak_scope_follows_the_installation() {
    let mut out = Vec::new();
    collect_flatpak(&mut out, "Firefox\t120.0\tflathub\tuser\nGIMP\t2.10\tflathub\tsystem\nBare\n");
    assert_eq!(names(&out), ["Firefox", "GIMP", "Bare"]);
    assert_eq!(out[0].scope.as_str(), "user");
    assert_eq!(out[1].scope.as_str(), "system");
    assert_eq!(out[2].scope.as_str(), "system");
    assert_eq!(out[0].publisher.as_str(), "flathub");
    assert_eq!(out[2].version.as_str(), "");
}

#[test]
fn snap_skips_its_header() {
    let mut out = Vec::new();
    collect_snap(
        &mut out,
        "Name  Version  Rev  Tracking  Publisher  Notes\ncore  16  1  latest/stable  canonical✓  core\nhello 2.10 42\n",
    );
    assert_eq!(names(&out), ["core", "hello"]);
    assert_eq!(out[0].version.as_str(), "16");
    assert_eq!(out[0].publisher.as_str(), "canonical✓");
    assert_eq!(out[1].publisher.as_str(), "");
}

#[test]
fn desktop_entries_name_visible_applications() {
    assert_eq!(parse_desktop("[Desktop Entry]\nType=Application\nName=GIMP\nName=Other\n"), Some("GIMP".to_string()));
    assert_eq!(parse_desktop("[Desktop Entry]\nName=Tool\nNoDisplay=TRUE\n"), None);
    assert_eq!(parse_desktop("[Desktop Entry]\nName=Tool\nHidden=true\n"), None);
    assert_eq!(parse_desktop("[Desktop Entry]\nName=Docs\nType=Link\n"), None);
    assert_eq!(parse_desktop("[Other]\nName=Nope\n"), None);
    assert_eq!(parse_desktop("[Desktop Entry]\nName=Shown\nNoDisplay=false\n[Desktop Action new]\nName=New Window\n"), Some("Shown".to_string()));
    assert_eq!(parse_desktop("  Name=x\n"), None);

    let file = |name: &str, dir: &str, text: Option<&str>| FoundFile {
        name: name.to_string(),
        location: format!("{dir}/{name}"),
        text: text.map(str::to_string),
    };
    let found = vec![
        vec![
            file("gimp.desktop", "/usr/share/applications", Some("[Desktop Entry]\nName=GIMP\n")),
            file("notes.txt", "/usr/share/applications", Some("[Desktop Entry]\nName=Notes\n")),
            file("broken.desktop", "/usr/share/applications", None),
        ],
        vec![],
        vec![
            file("x.desktop", "/home/u/.local/share/applications", Some("[Desktop Entry]\nHidden=true\nName=X\n")),
            file("tool.desktop", "/home/u/.local/share/applications", Some("[Desktop Entry]\nName=Tool\n")),
        ],
    ];
    let mut out = Vec::new();
    collect_desktop(&mut out, &found);
    assert_eq!(
        out,
        vec![
            entry("xdg-desktop", "GIMP".into(), String::new(), String::new(), "/usr/share/applications/gimp.desktop".into(), "system"),
            entry("xdg-desktop", "Tool".into(), String::new(), String::new(), "/home/u/.local/share/applications/tool.desktop".into(), "user"),
        ]
    );
    // An unreadable directory adds nothing; the others keep their scopes.
    let mut some = Vec::new();
    collect_desktop(&mut some, &vec![vec![], vec![file("a.desktop", "/usr/local/share/applications", Some("[Desktop Entry]\nName=A\n"))]]);
    assert_eq!(some.len(), 1);
    assert_eq!(some[0].scope.as_str(), "system");
}

#[test]
fn desktop_directories_cover_system_and_user() {
    let d = desktop_dirs("/home/u");
    assert_eq!(d.len(), 3);
    assert_eq!(d[0].path.as_str(), "/usr/share/applications");
    assert_eq!(d[1].path.as_str(), "/usr/local/share/applications");
    assert_eq!(d[2].path.as_str(), "/home/u/.local/share/applications");
    assert_eq!(d[2].scope.as_str(), "user");
    assert_eq!(local_bin_dir("/home/u").as_str(), "/home/u/.local/bin");
}

#[test]
fn local_bin_lists_executables_and_opt_lists_folders() {
    assert!(is_executable(true, 0o100));
    assert!(!is_executable(true, 0o644));
    assert!(!is_executable(false, 0o755));
    let item = |name: &str, is_file: bool, is_dir: bool, mode: u32| DirItem {
        name: name.to_string(),
        location: format!("/x/{name}"),
        is_file,
        is_dir,
        mode,
    };
    let items = [item("tool", true, false, 0o755), item("notes.txt", true, false, 0o644), item("sub", false, true, 0o755)];
    let mut out = Vec::new();
    collect_local_bin(&mut out, &items);
    assert_eq!(out, vec![entry("local-bin", "tool".into(), String::new(), String::new(), "/x/tool".into(), "user")]);
    let mut opt = Vec::new();
    collect_opt(&mut opt, &items);
    assert_eq!(opt, vec![entry("opt", "sub".into(), String::new(), String::new(), "/x/sub".into(), "system")]);
}

#[test]
fn a_linux_listing_is_sorted_by_name_and_counted() {
    let scan = LinuxScan {
        dpkg: Some("zsh\t5\tz\tinstalled\nBash\t5\tb\tinstalled\n".into()),
        rpm: None,
        flatpak: Some("apple\t1\tflathub\tuser\n".into()),
        snap: None,
        desktop: vec![],
        local_bin: vec![],
        opt: vec![],
    };
    let inv = list_programs(&scan);
    assert_eq!(inv.os.as_str(), "linux");
    assert_eq!(inv.total, 3);
    assert_eq!(names(&inv.entries), ["apple", "Bash", "zsh"]);
    assert!(inv.note.contains("~/.local/bin"));
    assert!(inv.entries.iter().all(|e| e.scope == "system" || e.scope == "user"));
}

#[test]
fn sorting_ignores_case_and_keeps_ties_in_order() {
    let mk = |name: &str, src: &str| entry(src, name.to_string(), String::new(), String::new(), String::new(), "system");
    let sorted = sort_by_name(vec![mk("b", "1"), mk("A", "2"), mk("a", "3"), mk("B", "4"), mk("", "5")]);
    let got: Vec<(&str, &str)> = sorted.iter().map(|e| (e.name.as_str(), e.source.as_str())).collect();
    assert_eq!(got, [("", "5"), ("A", "2"), ("a", "3"), ("b", "1"), ("B", "4")]);
}

#[test]
fn listing_commands_are_fixed() {
    assert_eq!(listing_command(Manager::Snap), ["snap", "list"]);
    assert_eq!(listing_command(Manager::Rpm)[0].as_str(), "rpm");
    assert_eq!(listing_command(Manager::Dpkg)[0].as_str(), "dpkg-query");
    assert_eq!(listing_command(Manager::Flatpak).len(), 4);
    assert_eq!(package_command("rpm", "vim"), Some(vec!["rpm".to_string(), "-ql".to_string(), "vim".to_string()]));
    assert_eq!(package_command("dpkg", "bash"), Some(vec!["dpkg".to_string(), "-L".to_string(), "bash".to_string()]));
    assert_eq!(package_command("flatpak", "x"), None);
}

#[test]
fn a_package_is_represented_by_its_main_binary() {
    let paths: Vec<String> = ["/usr/share/doc/vim", "/usr/bin/xxd", "/usr/bin/vim", "/etc/vimrc"].iter().map(|s| s.to_string()).collect();
    let files = vec![false, true, true, true];
    assert_eq!(pick_package_file(&paths, &files, "vim"), Some("/usr/bin/vim".to_string()));
    assert_eq!(pick_package_file(&paths, &files, "other"), Some("/usr/bin/xxd".to_string()));
    let paths2: Vec<String> = ["/usr/share/doc/x", "/etc/x.conf"].iter().map(|s| s.to_string()).collect();
    assert_eq!(pick_package_file(&paths2, &vec![false, true], "x"), Some("/etc/x.conf".to_string()));
    assert_eq!(pick_package_file(&paths2, &vec![false, false], "x"), None);
}

#[test]
fn an_entry_opens_as_what_the_disk_says_it_is() {
    let at = |loc: &str| entry("opt", "x".into(), String::new(), String::new(), loc.to_string(), "system");
    let dir = OnDisk { is_dir: true, is_file: false };
    let file = OnDisk { is_dir: false, is_file: true };
    let none = OnDisk { is_dir: false, is_file: false };
    let o = open_kind(&at("/opt/x"), dir).expect("a folder opens");
    assert_eq!(o.label, OpenLabel::Location);
    assert_eq!(o.target.as_str(), "path");
    assert_eq!(o.value.as_str(), "/opt/x");
    let f = open_kind(&at("/usr/bin/x"), file).expect("a file opens");
    assert_eq!(f.label, OpenLabel::File);
    assert_eq!(f.value.as_str(), "/usr/bin/x");
    // Nothing there, or no location at all: nothing opens.
    assert_eq!(open_kind(&at("/no/such/place/here"), none), None);
    assert_eq!(open_kind(&at(""), dir), None);
}

#[test]
fn a_path_is_recorded_or_asked_of_the_package() {
    let d = entry("dpkg", "bash".into(), String::new(), String::new(), String::new(), "system");
    assert_eq!(resolved_path(&d), Resolution::FromPackage { source: "dpkg".into(), name: "bash".into() });
    let o = entry("opt", "x".into(), String::new(), String::new(), "/opt/x".into(), "system");
    assert_eq!(resolved_path(&o), Resolution::Recorded("/opt/x".into()));
}

fn key(name: &str, version: &str) -> UninstallKey {
    UninstallKey {
        display_name: Some(name.to_string()),
        display_version: Some(version.to_string()),
        publisher: Some(" Vendor ".to_string()),
        install_location: None,
        release_type: None,
        parent_key_name: None,
        system_component: None,
    }
}

#[test]
fn the_registry_lists_programs_only() {
    let mut component = key("Driver", "1");
    component.system_component = Some(1);
    let mut update = key("KB123", "1");
    update.release_type = Some("Security Update".into());
    let mut child = key("Part", "1");
    child.parent_key_name = Some("Suite".into());
    let mut nameless = key("", "1");
    nameless.display_name = Some("   ".into());
    let mut absent = key("", "1");
    absent.display_name = None;
    let mut out = Vec::new();
    collect(&mut out, &[key(" App ", "2.0"), component, update, child, nameless, absent], "system");
    assert_eq!(out, vec![entry("registry-uninstall", "App".into(), "2.0".into(), "Vendor".into(), String::new(), "system")]);
}

#[test]
fn the_registry_shows_a_program_once_per_scope() {
    let mut v = vec![
        entry("r", "A".into(), "1".into(), "p".into(), String::new(), "system"),
        entry("r", "A".into(), "1".into(), "q".into(), String::new(), "system"),
        entry("r", "A".into(), "1".into(), "p".into(), String::new(), "user"),
        entry("r", "A".into(), "2".into(), "p".into(), String::new(), "system"),
    ];
    dedup(&mut v);
    let got: Vec<(&str, &str, &str)> = v.iter().map(|e| (e.version.as_str(), e.publisher.as_str(), e.scope.as_str())).collect();
    assert_eq!(got, [("1", "p", "system"), ("1", "p", "user"), ("2", "p", "system")]);
}

#[test]
fn a_windows_listing_merges_the_three_views() {
    let scan = WindowsScan {
        machine: vec![key("Zip", "1"), key("Editor", "3")],
        machine_wow: vec![key("Zip", "1")],
        user: vec![key("Zip", "1")],
    };
    let inv = windows_list_programs(&scan);
    assert_eq!(inv.os.as_str(), "windows");
    assert_eq!(inv.total, 3);
    let got: Vec<(&str, &str)> = inv.entries.iter().map(|e| (e.name.as_str(), e.scope.as_str())).collect();
    assert_eq!(got, [("Editor", "system"), ("Zip", "system"), ("Zip", "user")]);
    assert_eq!(windows_package_path("registry-uninstall", "Zip"), None);
}

#[test]
fn only_desktop_files_are_read() {
    assert!(has_desktop_extension("gimp.desktop"));
    assert!(has_desktop_extension("..desktop"));
    assert!(!has_desktop_extension(".desktop"));
    assert!(!has_desktop_extension("gimp.desktop.bak"));
    assert!(!has_desktop_extension("readme"));
    assert!(!has_desktop_extension("gimp.Desktop"));
}

#[test]
fn another_platform_lists_nothing() {
    let inv = unsupported_listing("freebsd");
    assert_eq!(inv.os.as_str(), "freebsd");
    assert_eq!(inv.total, 0);
    assert!(inv.entries.is_empty());
    assert_eq!(inv.note.as_str(), "installed-program listing is only implemented for Windows and Linux");
}

#[test]
fn each_platform_has_its_clipboard_tools() {
    assert_eq!(clipboard_tools("windows"), vec![vec!["clip".to_string()]]);
    assert_eq!(clipboard_tools("macos"), vec![vec!["pbcopy".to_string()]]);
    let linux = clipboard_tools("linux");
    assert_eq!(linux.len(), 3);
    assert_eq!(linux[0], ["wl-copy"]);
    assert_eq!(linux[1], ["xclip", "-selection", "clipboard"]);
    assert_eq!(linux[2], ["xsel", "--clipboard", "--input"]);
    assert!(clipboard_tools("haiku").is_empty());
}

#[test]
fn a_package_file_is_one_the_disk_has() {
    // No binary among them: the first path the disk says is a regular file.
    let listing = "/no/such/dir\n/etc/x.conf\n/etc/y.conf\n";
    assert_eq!(listing_lines(listing), ["/no/such/dir", "/etc/x.conf", "/etc/y.conf"]);
    assert_eq!(package_file(listing, "x", &vec![false, true, true]), Some("/etc/x.conf".to_string()));
    assert_eq!(package_file(listing, "x", &vec![false, false, false]), None);
    assert_eq!(package_file("", "x", &vec![]), None);
    // The whole rule: the manager's listing, then the pick.
    let bins = Some("/usr/share/doc/vim\n/usr/bin/xxd\n/usr/bin/vim\n".to_string());
    let flags = vec![false, true, true];
    assert_eq!(package_path("rpm", "vim", &bins, &flags), Some("/usr/bin/vim".to_string()));
    assert_eq!(package_path("dpkg", "other", &bins, &flags), Some("/usr/bin/xxd".to_string()));
    assert_eq!(package_path("flatpak", "vim", &bins, &flags), None);
    assert_eq!(package_path("rpm", "vim", &None, &vec![]), None);
}
