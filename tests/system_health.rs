use std::io::Cursor;
use tux_validation::os_release;

#[test]
fn read_os_id_and_codename() {
    let mock_data = r#"
ID=debian
VERSION_CODENAME="forky"
# This is a comment
        EXTRA_VAR=value
    "#;

    let reader = Cursor::new(mock_data);
    let result = os_release::parse_os_release_from_reader(reader).unwrap();

    assert_eq!(result.get("ID").unwrap(), "debian");
    assert_eq!(result.get("VERSION_CODENAME").unwrap(), "forky");
    assert_eq!(result.get("EXTRA_VAR").unwrap(), "value");
}

#[test]
fn os_release_yields_only_the_set_keys() {
    let text = "\nID=debian\nVERSION_CODENAME=\"forky\"\n# This is a comment\n        EXTRA_VAR=value\n    ";
    let result = os_release::parse_os_release_str(text);
    assert_eq!(result.get("ID").unwrap(), "debian");
    assert_eq!(result.get("VERSION_CODENAME").unwrap(), "forky");
    assert_eq!(result.get("EXTRA_VAR").unwrap(), "value");
    assert!(result.get("# This is a comment").is_none());
    assert!(result.get("").is_none());
    assert!(result.get("NAME").is_none());
}

#[test]
fn os_release_strips_single_quotes_and_spaces() {
    let result = os_release::parse_os_release_str("  NAME = 'Debian GNU/Linux'  \r\nID=a=b\n");
    assert_eq!(result.get("NAME").unwrap(), "Debian GNU/Linux");
    assert_eq!(result.get("ID").unwrap(), "a=b");
}

#[test]
fn os_release_later_line_overrides() {
    let result = os_release::parse_os_release_str("ID=one\nID=two\nnot a setting\n");
    assert_eq!(result.get("ID").unwrap(), "two");
    assert!(result.get("not a setting").is_none());
}

#[test]
fn os_release_unreadable_input_is_an_error() {
    let reader = Cursor::new(vec![0xffu8, 0xfe, b'\n']);
    let result = os_release::parse_os_release_from_reader(reader);
    assert!(matches!(result, Err(os_release::OsReleaseError::Unreadable)));
}

#[test]
fn os_release_trims_unicode_white_space() {
    let result = os_release::parse_os_release_str("\u{3000}ID\u{a0}=\u{2003}x\u{85}\n\tNAME=\u{200b}y\n");
    assert_eq!(result.get("ID").unwrap(), "x");
    assert_eq!(result.get("NAME").unwrap(), "\u{200b}y");
}

#[test]
fn os_release_keys_each_once_in_first_order() {
    let result = os_release::parse_os_release_str("ID=one\nNAME=n\nID=two\n# c\n");
    assert_eq!(result.keys(), vec!["ID".to_string(), "NAME".to_string()]);
}
