use foss_switch::pipeline::get_installed_software;
use foss_switch::registry::InstalledSoftware;

fn record(name: &str) -> InstalledSoftware {
    InstalledSoftware {
        name: name.to_string(),
        version: "1.0".to_string(),
        publisher: String::new(),
        install_date: String::new(),
        install_location: String::new(),
        uninstall_string: String::new(),
        icon_path: String::new(),
        estimated_size: 0,
    }
}

#[test]
fn join_reports_alternatives_per_record() {
    let records = vec![record("Adobe Photoshop"), record("Contoso Accounting Suite")];
    let joined = get_installed_software(records);
    assert_eq!(joined.len(), 2);

    assert_eq!(joined[0].software.name, "Adobe Photoshop");
    assert!(joined[0].has_alternatives);
    let names: Vec<&str> = joined[0].alternatives.iter().map(|a| a.name.as_str()).collect();
    assert_eq!(names, vec!["GIMP", "Krita"]);

    assert_eq!(joined[1].software.name, "Contoso Accounting Suite");
    assert!(!joined[1].has_alternatives);
    assert!(joined[1].alternatives.is_empty());
}

#[test]
fn join_of_empty_scan_is_empty() {
    let joined = get_installed_software(Vec::new());
    assert!(joined.is_empty());
}
