use foss_switch::registry::{
    get_version_string, parse_software_entry, sanitize_version, scan_installed_software,
    RawRegistryEntry,
};

fn entry(name: Option<&str>, version: Option<&str>) -> RawRegistryEntry {
    RawRegistryEntry {
        display_name: name.map(|s| s.to_string()),
        display_version: version.map(|s| s.to_string()),
        version: None,
        version_major: None,
        version_minor: None,
        major_version: None,
        minor_version: None,
        publisher: None,
        install_date: None,
        install_location: None,
        uninstall_string: None,
        display_icon: None,
        estimated_size: None,
    }
}

#[test]
fn duplicate_name_and_version_kept_once() {
    // the same record seen under two registry roots
    let raws = vec![
        entry(Some("Contoso App"), Some("1.2")),
        entry(Some("Contoso App"), Some("1.2")),
    ];
    let scanned = scan_installed_software(&raws);
    assert_eq!(scanned.len(), 1);
    assert_eq!(scanned[0].name, "Contoso App");
    assert_eq!(scanned[0].version, "1.2");
}

#[test]
fn first_occurrence_wins_across_roots() {
    // two roots report the same (name, version) with different details;
    // the record from the earlier root survives
    let mut first = entry(Some("Contoso App"), Some("1.2"));
    first.publisher = Some("Contoso Ltd".to_string());
    let mut second = entry(Some("Contoso App"), Some("1.2"));
    second.publisher = Some("Someone Else".to_string());
    let scanned = scan_installed_software(&vec![first, second]);
    assert_eq!(scanned.len(), 1);
    assert_eq!(scanned[0].publisher, "Contoso Ltd");
}

#[test]
fn same_name_different_version_kept_twice() {
    let raws = vec![
        entry(Some("Contoso App"), Some("1.2")),
        entry(Some("Contoso App"), Some("2.0")),
    ];
    let scanned = scan_installed_software(&raws);
    assert_eq!(scanned.len(), 2);
}

#[test]
fn blocklisted_names_are_filtered() {
    let raws = vec![
        entry(Some("Security Update for Widgets"), Some("1.0")),
        entry(Some("Contoso Driver Pack"), Some("1.0")),
        entry(Some("Acme SDK"), Some("1.0")),
        entry(Some("KB5012345"), Some("1.0")),
        entry(Some(""), Some("1.0")),
        entry(Some("Real App"), Some("1.0")),
        entry(None, Some("9.9")),
    ];
    let scanned = scan_installed_software(&raws);
    assert_eq!(scanned.len(), 1);
    assert_eq!(scanned[0].name, "Real App");
}

#[test]
fn output_sorted_case_insensitively() {
    let raws = vec![
        entry(Some("zeta"), Some("1")),
        entry(Some("Alpha"), Some("1")),
        entry(Some("beta"), Some("1")),
        entry(Some("ALPHA plus"), Some("1")),
    ];
    let scanned = scan_installed_software(&raws);
    let names: Vec<&str> = scanned.iter().map(|s| s.name.as_str()).collect();
    assert_eq!(names, vec!["Alpha", "ALPHA plus", "beta", "zeta"]);
}

#[test]
fn version_prefers_display_version() {
    let mut e = entry(Some("App"), Some(" 3.1.4 "));
    e.version = Some("9.9".to_string());
    assert_eq!(get_version_string(&e), "3.1.4");
}

#[test]
fn version_falls_back_to_version_field() {
    let mut e = entry(Some("App"), Some("beta"));
    e.version = Some("2.5".to_string());
    assert_eq!(get_version_string(&e), "2.5");
}

#[test]
fn version_falls_back_to_numeric_pair() {
    let mut e = entry(Some("App"), None);
    e.version_major = Some(4);
    e.version_minor = Some(7);
    assert_eq!(get_version_string(&e), "4.7");
}

#[test]
fn version_falls_back_to_alternate_numeric_pair() {
    let mut e = entry(Some("App"), None);
    e.major_version = Some(12);
    e.minor_version = Some(0);
    assert_eq!(get_version_string(&e), "12.0");
}

#[test]
fn version_empty_when_nothing_usable() {
    let e = entry(Some("App"), Some("garbage"));
    assert_eq!(get_version_string(&e), "");
}

#[test]
fn sanitize_rejects_digitless_candidates() {
    assert_eq!(sanitize_version(" 1.0 "), "1.0");
    assert_eq!(sanitize_version("<3"), "<3".to_string());
    assert_eq!(sanitize_version("beta"), "");
    assert_eq!(sanitize_version(""), "");
}

#[test]
fn parse_entry_copies_all_fields() {
    let mut e = entry(Some("Contoso App"), Some("1.0"));
    e.publisher = Some("Contoso".to_string());
    e.install_date = Some("20240101".to_string());
    e.install_location = Some("C:\\Contoso".to_string());
    e.uninstall_string = Some("C:\\Contoso\\u.exe /S".to_string());
    e.display_icon = Some("C:\\Contoso\\a.exe,0".to_string());
    e.estimated_size = Some(2048);
    let sw = parse_software_entry(&e).expect("parses");
    assert_eq!(sw.name, "Contoso App");
    assert_eq!(sw.version, "1.0");
    assert_eq!(sw.publisher, "Contoso");
    assert_eq!(sw.install_date, "20240101");
    assert_eq!(sw.install_location, "C:\\Contoso");
    assert_eq!(sw.uninstall_string, "C:\\Contoso\\u.exe /S");
    assert_eq!(sw.icon_path, "C:\\Contoso\\a.exe,0");
    assert_eq!(sw.estimated_size, 2048);
}

#[test]
fn missing_optional_fields_become_defaults() {
    let sw = parse_software_entry(&entry(Some("Bare App"), None)).expect("parses");
    assert_eq!(sw.version, "");
    assert_eq!(sw.publisher, "");
    assert_eq!(sw.uninstall_string, "");
    assert_eq!(sw.estimated_size, 0);
}
