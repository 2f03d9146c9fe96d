use foss_switch::foss_db::{get_all_foss_apps, get_foss_database, FossApp};
use foss_switch::matcher::find_alternatives;

fn same_app(a: &FossApp, b: &FossApp) -> bool {
    a.name == b.name
        && a.description == b.description
        && a.website == b.website
        && a.download_url == b.download_url
        && a.license == b.license
        && a.category == b.category
        && a.icon == b.icon
        && a.winget_id == b.winget_id
}

fn names(apps: &[FossApp]) -> Vec<String> {
    apps.iter().map(|a| a.name.clone()).collect()
}

#[test]
fn office_and_365_are_aliases() {
    let office = find_alternatives("Microsoft Office").expect("catalog key");
    let m365 = find_alternatives("Microsoft 365").expect("catalog alias");
    assert_eq!(office.len(), m365.len());
    for (a, b) in office.iter().zip(m365.iter()) {
        assert!(same_app(a, b));
    }
    assert_eq!(names(&office), vec!["LibreOffice", "OnlyOffice"]);
}

#[test]
fn excluded_product_gets_no_match() {
    // "vlc" is an exclusion token, so even a name no catalog key equals
    // is answered with no recommendation
    assert!(find_alternatives("VLC Media Player").is_none());
    assert!(find_alternatives("GIMP").is_none());
    assert!(find_alternatives("Mozilla Firefox").is_none());
}

#[test]
fn short_query_only_matches_exactly() {
    // three characters never reach the fuzzy or word-subset passes
    assert!(find_alternatives("ABC").is_none());
    // but a short exact key still matches
    let maya = find_alternatives("Maya").expect("exact match");
    assert_eq!(names(&maya), vec!["Blender"]);
    assert!(find_alternatives("May").is_none());
}

#[test]
fn word_subset_matches_suffixed_variant() {
    let suffixed = find_alternatives("Adobe Photoshop CC 2024").expect("word subset");
    let exact = find_alternatives("Adobe Photoshop").expect("exact");
    assert_eq!(suffixed.len(), exact.len());
    for (a, b) in suffixed.iter().zip(exact.iter()) {
        assert!(same_app(a, b));
    }
    assert_eq!(names(&suffixed), vec!["GIMP", "Krita"]);
}

#[test]
fn fuzzy_prefix_match() {
    // the query starts with the lowercased key "winrar"
    let apps = find_alternatives("WinRAR 6.0 (64-bit)").expect("fuzzy");
    assert_eq!(names(&apps), vec!["7-Zip", "PeaZip"]);
}

#[test]
fn unrelated_name_gets_no_match() {
    assert!(find_alternatives("Contoso Accounting Suite").is_none());
}

#[test]
fn exact_match_returns_full_entry() {
    let apps = find_alternatives("Adobe Premiere Pro").expect("exact");
    assert_eq!(names(&apps), vec!["DaVinci Resolve", "Kdenlive", "Shotcut"]);
    assert_eq!(apps[0].website, "https://www.blackmagicdesign.com/products/davinciresolve");
    assert_eq!(apps[0].license, "Freemium");
    assert_eq!(apps[0].category, "Video Editing");
    assert_eq!(apps[0].winget_id, Some("BlackmagicDesign.DaVinciResolve".to_string()));
}

#[test]
fn catalog_has_fixed_keys_in_order() {
    let db = get_foss_database();
    let keys: Vec<&str> = db.iter().map(|e| e.paid_software.as_str()).collect();
    assert_eq!(
        keys,
        vec![
            "Adobe Premiere Pro",
            "Adobe Photoshop",
            "Microsoft Office",
            "Microsoft 365",
            "WinRAR",
            "Sublime Text",
            "Adobe Illustrator",
            "iTunes",
            "3ds Max",
            "Maya",
            "Cinema 4D",
            "LastPass",
            "1Password",
            "Adobe Audition",
            "Snagit",
        ]
    );
}

#[test]
fn browsing_list_is_sorted_and_unique() {
    let all = get_all_foss_apps();
    assert_eq!(all.len(), 19);
    assert_eq!(all[0].name, "7-Zip");
    for w in all.windows(2) {
        assert!(w[0].name < w[1].name);
    }
    // every substitute appears exactly once even though several catalog
    // keys share lists
    let blender_count = all.iter().filter(|a| a.name == "Blender").count();
    assert_eq!(blender_count, 1);
}
