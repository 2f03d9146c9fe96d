use foss_switch::parser::parse_uninstall_command;

#[test]
fn quoted_program_with_argument() {
    let (program, args) = parse_uninstall_command("\"C:\\Program Files\\App\\u.exe\" /silent");
    assert_eq!(program, "C:\\Program Files\\App\\u.exe");
    assert_eq!(args, vec!["/silent".to_string()]);
}

#[test]
fn unquoted_program_split_at_extension_marker() {
    let (program, args) = parse_uninstall_command("C:\\Program Files\\App\\u.exe /S");
    assert_eq!(program, "C:\\Program Files\\App\\u.exe");
    assert_eq!(args, vec!["/S".to_string()]);
}

#[test]
fn extension_marker_is_case_insensitive() {
    let (program, args) = parse_uninstall_command("C:\\APP\\SETUP.EXE /quiet /norestart");
    assert_eq!(program, "C:\\APP\\SETUP.EXE");
    assert_eq!(args, vec!["/quiet".to_string(), "/norestart".to_string()]);
}

#[test]
fn plain_whitespace_split() {
    let (program, args) = parse_uninstall_command("uninstall --force now");
    assert_eq!(program, "uninstall");
    assert_eq!(args, vec!["--force".to_string(), "now".to_string()]);
}

#[test]
fn empty_input_gives_empty_program() {
    let (program, args) = parse_uninstall_command("");
    assert_eq!(program, "");
    assert!(args.is_empty());
}

#[test]
fn whitespace_only_input_gives_empty_program() {
    let (program, args) = parse_uninstall_command("   \t  ");
    assert_eq!(program, "");
    assert!(args.is_empty());
}

#[test]
fn unterminated_quote_falls_through() {
    // with no closing quote the quoted branch does not apply
    let (program, args) = parse_uninstall_command("\"C:\\App util /S");
    assert_eq!(program, "\"C:\\App");
    assert_eq!(args, vec!["util".to_string(), "/S".to_string()]);
}

#[test]
fn surrounding_whitespace_is_trimmed() {
    let (program, args) = parse_uninstall_command("  \"C:\\A B\\u.exe\"  /x  ");
    assert_eq!(program, "C:\\A B\\u.exe");
    assert_eq!(args, vec!["/x".to_string()]);
}
