//! Starlark literals and bin names.

use pudu::buck::format::{starlark_string, validate_bin_name};

#[test]
fn a_plain_string_is_quoted() {
    assert_eq!(starlark_string("package"), "\"package\"");
}

#[test]
fn a_space_in_an_archive_root_survives_quoting() {
    assert_eq!(starlark_string("node v22.20"), "\"node v22.20\"");
}

#[test]
fn quotes_and_backslashes_are_escaped() {
    assert_eq!(starlark_string(r#"a"b\c"#), r#""a\"b\\c""#);
}

#[test]
fn control_characters_are_escaped_numerically() {
    assert_eq!(starlark_string("a\nb\tc\rd\u{7}"), r#""a\nb\tc\rd\x07""#);
}

#[test]
fn non_ascii_is_passed_through_as_utf8() {
    assert_eq!(starlark_string("café–ü"), "\"café–ü\"");
}

#[test]
fn buck_addressable_bin_names_are_accepted() {
    for name in ["semver", "tsc", "next.js", "a+b", "a-b", "a_b", "A9"] {
        assert!(
            validate_bin_name("pkg@1.0.0", name).is_ok(),
            "{name} must be accepted"
        );
    }
}

#[test]
fn bin_names_buck_cannot_address_are_rejected() {
    for name in ["bang!", "tilde~", "star*", "quote'", "paren(", "close)"] {
        let err = validate_bin_name("pkg@1.0.0", name).unwrap_err();
        let msg = err.message();
        assert!(
            msg.contains("pkg@1.0.0"),
            "{name}: {msg} must name the package"
        );
        assert!(msg.contains(name), "{name}: {msg} must name the value");
    }
}

#[test]
fn an_empty_bin_name_is_rejected() {
    assert!(validate_bin_name("pkg@1.0.0", "").is_err());
}
