use apphub::app_info::AppInfo;
use apphub::category::Category;
use apphub::scanner::{
    dir_is_skipped, scan_entry, scan_roots, start_menu_path, start_menu_programs_path,
    utf16_prefix_to_nul, FsEntry,
};

fn lnk(stem: &str, target: Option<&str>) -> FsEntry {
    FsEntry::File {
        stem: stem.to_string(),
        ext: "lnk".to_string(),
        link_target: target.map(|t| t.to_string()),
        content: None,
    }
}

fn url(stem: &str, content: Option<&str>) -> FsEntry {
    FsEntry::File {
        stem: stem.to_string(),
        ext: "url".to_string(),
        link_target: None,
        content: content.map(|c| c.to_string()),
    }
}

fn dir(name: &str, entries: Vec<FsEntry>) -> FsEntry {
    FsEntry::Dir { name: name.to_string(), entries }
}

#[test]
fn skip_list_is_exact_not_substring() {
    assert!(dir_is_skipped("System32"));
    assert!(!dir_is_skipped("System32Extra"));
    assert!(!dir_is_skipped("My System32 Tools"));
}

#[test]
fn skip_list_is_case_insensitive() {
    assert!(dir_is_skipped("WINSXS"));
    assert!(dir_is_skipped("windows"));
    assert!(dir_is_skipped("Microsoft.NET"));
    assert!(dir_is_skipped("Assembly"));
    assert!(dir_is_skipped("SysWOW64"));
    assert!(dir_is_skipped("SystemApps"));
}

#[test]
fn resolved_shortcut_yields_record_with_target_path() {
    // The end-to-end discovery example: a shortcut named
    // Counter-Strike under a Steam directory, resolving to the real
    // executable.
    let root = dir("Programs", vec![dir("Steam", vec![lnk("Counter-Strike", Some("C:\\Steam\\cs.exe"))])]);
    let apps = scan_entry(&root);
    assert_eq!(apps.len(), 1);
    assert_eq!(apps[0].name, "Counter-Strike");
    assert_eq!(apps[0].path, "C:\\Steam\\cs.exe");
    assert_eq!(apps[0].category, Category::Games);
    assert!(apps[0].icon.is_none());
}

#[test]
fn unresolved_shortcut_is_dropped() {
    let root = dir("Programs", vec![lnk("Broken", None)]);
    assert_eq!(scan_entry(&root).len(), 0);
}

#[test]
fn category_comes_from_target_not_shortcut_location() {
    // The shortcut sits under a Media directory but its target is
    // under Steam: the resolved target decides.
    let root = dir("Media", vec![lnk("Game", Some("C:\\Steam\\game.exe"))]);
    let apps = scan_entry(&root);
    assert_eq!(apps[0].category, Category::Games);
}

#[test]
fn web_shortcut_takes_url_value() {
    let root = dir(
        "Programs",
        vec![url("Example", Some("[InternetShortcut]\r\nURL=https://example.com/\r\nIconIndex=0\r\n"))],
    );
    let apps = scan_entry(&root);
    assert_eq!(apps.len(), 1);
    assert_eq!(apps[0].name, "Example");
    assert_eq!(apps[0].path, "https://example.com/");
    assert_eq!(apps[0].category, Category::Web);
}

#[test]
fn url_value_is_trimmed() {
    let root = dir("P", vec![url("E", Some("URL=   https://x.example/  \r\n"))]);
    let apps = scan_entry(&root);
    assert_eq!(apps[0].path, "https://x.example/");
}

#[test]
fn url_value_trimming_covers_unicode_whitespace() {
    // padded with no-break spaces, which str::trim also removes
    let root = dir("P", vec![url("E", Some("URL=\u{a0}https://x.example/\u{a0}\r\n"))]);
    let apps = scan_entry(&root);
    assert_eq!(apps[0].path, "https://x.example/");
}

#[test]
fn first_url_line_wins() {
    let root = dir("P", vec![url("E", Some("URL=https://first/\nURL=https://second/\n"))]);
    let apps = scan_entry(&root);
    assert_eq!(apps[0].path, "https://first/");
}

#[test]
fn url_key_is_case_sensitive() {
    let root = dir("P", vec![url("E", Some("url=https://lowercase/\n"))]);
    assert_eq!(scan_entry(&root).len(), 0);
}

#[test]
fn web_shortcut_without_url_line_is_dropped() {
    let root = dir("P", vec![url("E", Some("[InternetShortcut]\nIconIndex=0\n"))]);
    assert_eq!(scan_entry(&root).len(), 0);
}

#[test]
fn unreadable_web_shortcut_is_dropped() {
    let root = dir("P", vec![url("E", None)]);
    assert_eq!(scan_entry(&root).len(), 0);
}

#[test]
fn unrecognized_extension_is_ignored() {
    let root = dir(
        "P",
        vec![FsEntry::File {
            stem: "readme".to_string(),
            ext: "txt".to_string(),
            link_target: Some("C:\\x.exe".to_string()),
            content: None,
        }],
    );
    assert_eq!(scan_entry(&root).len(), 0);
}

#[test]
fn extension_matching_is_case_insensitive() {
    let root = dir(
        "P",
        vec![FsEntry::File {
            stem: "App".to_string(),
            ext: "LNK".to_string(),
            link_target: Some("C:\\app.exe".to_string()),
            content: None,
        }],
    );
    assert_eq!(scan_entry(&root).len(), 1);
}

#[test]
fn skipped_subtree_is_not_descended() {
    let root = dir(
        "Programs",
        vec![
            dir("System32", vec![lnk("Hidden", Some("C:\\hidden.exe"))]),
            dir("System32Extra", vec![lnk("Visible", Some("C:\\visible.exe"))]),
        ],
    );
    let apps = scan_entry(&root);
    assert_eq!(apps.len(), 1);
    assert_eq!(apps[0].name, "Visible");
}

#[test]
fn scan_is_exhaustive_over_nesting() {
    let root = dir(
        "Programs",
        vec![
            lnk("A", Some("C:\\a.exe")),
            dir("Sub", vec![lnk("B", Some("C:\\b.exe")), dir("Deeper", vec![lnk("C", Some("C:\\c.exe"))])]),
            lnk("D", Some("C:\\d.exe")),
        ],
    );
    let apps = scan_entry(&root);
    let names: Vec<&str> = apps.iter().map(|a| a.name.as_str()).collect();
    assert_eq!(names, vec!["A", "B", "C", "D"]);
}

#[test]
fn scanning_unchanged_tree_twice_is_identical() {
    // Idempotence: two scans of the same tree agree entry for entry.
    let root = dir(
        "Programs",
        vec![lnk("A", Some("C:\\a.exe")), url("W", Some("URL=https://w/\n")), dir("S", vec![lnk("B", Some("C:\\b.exe"))])],
    );
    let first = scan_entry(&root);
    let second = scan_entry(&root);
    assert_eq!(first.len(), second.len());
    for i in 0..first.len() {
        assert!(first[i] == second[i]);
    }
}

#[test]
fn scan_membership_ignores_sibling_order() {
    // The same entries listed in a different order yield the same
    // catalog membership.
    let t1 = dir("P", vec![lnk("A", Some("C:\\a.exe")), lnk("B", Some("C:\\b.exe"))]);
    let t2 = dir("P", vec![lnk("B", Some("C:\\b.exe")), lnk("A", Some("C:\\a.exe"))]);
    let r1 = scan_roots(&vec![t1]);
    let r2 = scan_roots(&vec![t2]);
    assert_eq!(r1.len(), r2.len());
    for a in &r1 {
        assert!(r2.iter().any(|b| b == a));
    }
}

#[test]
fn identical_records_from_two_roots_collapse_to_one() {
    // Dedup via union: both roots hold a shortcut resolving to the
    // identical record; the combined catalog holds it once.
    let machine = dir("Programs", vec![lnk("App", Some("C:\\app.exe"))]);
    let user = dir("Programs", vec![lnk("App", Some("C:\\app.exe"))]);
    let apps = scan_roots(&vec![machine, user]);
    assert_eq!(apps.len(), 1);
    assert_eq!(apps[0].name, "App");
}

#[test]
fn records_differing_in_name_do_not_collapse() {
    // Equality is over all fields: two shortcuts to the same target
    // with different display names stay distinct.
    let machine = dir("Programs", vec![lnk("App", Some("C:\\app.exe"))]);
    let user = dir("Programs", vec![lnk("Application", Some("C:\\app.exe"))]);
    let apps = scan_roots(&vec![machine, user]);
    assert_eq!(apps.len(), 2);
}

#[test]
fn duplicate_within_one_root_collapses_too() {
    let root = dir(
        "Programs",
        vec![lnk("App", Some("C:\\app.exe")), dir("Sub", vec![lnk("App", Some("C:\\app.exe"))])],
    );
    let apps = scan_roots(&vec![root]);
    assert_eq!(apps.len(), 1);
}

#[test]
fn app_info_equality_is_over_all_fields() {
    let a = AppInfo {
        name: "A".to_string(),
        path: "C:\\a.exe".to_string(),
        category: Category::Other,
        icon: None,
    };
    let b = AppInfo {
        name: "A".to_string(),
        path: "C:\\a.exe".to_string(),
        category: Category::Other,
        icon: None,
    };
    let c = AppInfo { icon: Some("data:".to_string()), ..b.clone() };
    assert!(a == b);
    assert!(a != c);
}

#[test]
fn utf16_target_buffer_is_cut_at_first_nul() {
    // "C:" followed by the terminator and stale buffer bytes
    let buf: Vec<u16> = vec![67, 58, 0, 88, 0, 99];
    assert_eq!(utf16_prefix_to_nul(&buf), vec![67, 58]);
}

#[test]
fn utf16_buffer_without_nul_is_kept_whole() {
    let buf: Vec<u16> = vec![67, 58, 92];
    assert_eq!(utf16_prefix_to_nul(&buf), buf);
    assert_eq!(utf16_prefix_to_nul(&Vec::new()), Vec::<u16>::new());
}

#[test]
fn start_menu_paths_are_joined() {
    assert_eq!(
        start_menu_path("C:\\Users\\me\\AppData\\Roaming"),
        "C:\\Users\\me\\AppData\\Roaming\\Microsoft\\Windows\\Start Menu"
    );
    assert_eq!(
        start_menu_programs_path("C:\\ProgramData"),
        "C:\\ProgramData\\Microsoft\\Windows\\Start Menu\\Programs"
    );
}
