use stratis_core::names::{count_path_components, path_is_absolute, validate_name};

#[test]
fn test_validate_name() {
    assert!(matches!(validate_name(&'\u{0}'.to_string()), Err(_)));
    assert!(matches!(validate_name("./some"), Err(_)));
    assert!(matches!(validate_name("../../root"), Err(_)));
    assert!(matches!(validate_name("/"), Err(_)));
    assert!(matches!(validate_name("\u{1c}\u{7}"), Err(_)));
    assert!(matches!(validate_name("./foo/bar.txt"), Err(_)));
    assert!(matches!(validate_name("."), Err(_)));
    assert!(matches!(validate_name(".."), Err(_)));
    assert!(matches!(validate_name("/dev/sdb"), Err(_)));
    assert!(matches!(validate_name(""), Err(_)));
    assert!(matches!(validate_name("/"), Err(_)));
    assert!(matches!(validate_name(" leading_space"), Err(_)));
    assert!(matches!(validate_name("trailing_space "), Err(_)));
    assert!(matches!(validate_name("\u{0}leading_null"), Err(_)));
    assert!(matches!(validate_name("trailing_null\u{0}"), Err(_)));
    assert!(matches!(validate_name("exclamat!on"), Err(_)));
    assert!(matches!(validate_name("dollar$ign"), Err(_)));
    assert!(matches!(validate_name("middle\u{0}_null"), Err(_)));
    assert!(matches!(validate_name("\u{0}multiple\u{0}_null\u{0}"), Err(_)));
    assert!(matches!(validate_name(&"𐌏".repeat(64)), Err(_)));

    assert!(matches!(validate_name(&"𐌏".repeat(63)), Ok(_)));
    assert!(matches!(validate_name(&'\u{10fff8}'.to_string()), Ok(_)));
    assert!(matches!(validate_name("*< ? >"), Err(_)));
    assert!(matches!(validate_name("..."), Ok(_)));
    assert!(matches!(validate_name("ok.name"), Ok(_)));
    assert!(matches!(validate_name("ok name with spaces"), Err(_)));
    assert!(matches!(validate_name("\\\\"), Err(_)));
    assert!(matches!(validate_name("\u{211D}"), Ok(_)));
    assert!(matches!(validate_name("☺"), Ok(_)));
    assert!(matches!(validate_name("ok_name"), Ok(_)));
    assert!(matches!(validate_name("ユニコード"), Ok(_)));
    assert!(matches!(validate_name("ユニコード?"), Err(_)));
}

#[test]
fn name_length_limit_is_in_bytes() {
    assert!(validate_name(&"a".repeat(255)).is_ok());
    assert!(validate_name(&"a".repeat(256)).is_err());
}

#[test]
fn path_helpers() {
    assert!(path_is_absolute("/dev/sda"));
    assert!(!path_is_absolute("dev/sda"));
    assert_eq!(count_path_components("a"), 1);
}
