use foss_switch::winget::parse_winget_output;

#[test]
fn parses_aligned_table() {
    let output = "\
Name       Id            Version
--------------------------------
App One    Contoso.App   1.2.3
Tool       Acme.Tool     2.0 beta

Ghost                    9.9
";
    let packages = parse_winget_output(output);
    assert_eq!(packages.len(), 2);
    assert_eq!(packages[0].name, "App One");
    assert_eq!(packages[0].id, "Contoso.App");
    assert_eq!(packages[0].version, "1.2.3");
    assert_eq!(packages[1].name, "Tool");
    assert_eq!(packages[1].id, "Acme.Tool");
    // only the first word of the version column counts
    assert_eq!(packages[1].version, "2.0");
}

#[test]
fn output_without_header_yields_nothing() {
    assert!(parse_winget_output("no packages found").is_empty());
    assert!(parse_winget_output("").is_empty());
}

#[test]
fn carriage_returns_are_stripped() {
    let output = "Name  Id        Version\r\n----\r\nA     B.C       1.0\r\n";
    let packages = parse_winget_output(output);
    assert_eq!(packages.len(), 1);
    assert_eq!(packages[0].name, "A");
    assert_eq!(packages[0].id, "B.C");
    assert_eq!(packages[0].version, "1.0");
}
