use foss_switch::icons::parse_icon_path;

#[test]
fn test_parse_icon_path() {
    assert_eq!(
        parse_icon_path("C:\\app.exe,0"),
        ("C:\\app.exe".to_string(), 0)
    );
    assert_eq!(
        parse_icon_path("C:\\app.exe,-1"),
        ("C:\\app.exe".to_string(), -1)
    );
    assert_eq!(
        parse_icon_path("\"C:\\app.exe\",0"),
        ("C:\\app.exe".to_string(), 0)
    );
    assert_eq!(
        parse_icon_path("C:\\app.ico"),
        ("C:\\app.ico".to_string(), 0)
    );
}

#[test]
fn icon_path_with_spaces_and_index() {
    assert_eq!(
        parse_icon_path("  C:\\Program Files\\App\\app.exe,3  "),
        ("C:\\Program Files\\App\\app.exe".to_string(), 3)
    );
}

#[test]
fn icon_path_index_out_of_range_keeps_whole_reference() {
    // an index that does not fit an i32 is not an index at all
    assert_eq!(
        parse_icon_path("C:\\a.exe,99999999999"),
        ("C:\\a.exe,99999999999".to_string(), 0)
    );
}

#[test]
fn icon_path_index_with_leading_zeros() {
    assert_eq!(parse_icon_path("C:\\a.exe,007"), ("C:\\a.exe".to_string(), 7));
}

#[test]
fn icon_path_trailing_comma_is_not_an_index() {
    assert_eq!(parse_icon_path("C:\\a.exe,"), ("C:\\a.exe,".to_string(), 0));
}
