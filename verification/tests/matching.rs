//! npm platform fields.

use pudu::platform::admits;

fn list(items: &[&str]) -> Vec<String> {
    items.iter().map(|s| s.to_string()).collect()
}

#[test]
fn absent_field_admits_everything() {
    assert!(admits(None, "linux"));
    assert!(admits(None, "wasm32"));
}

#[test]
fn positive_entry_admits_only_itself() {
    assert!(admits(Some(&list(&["linux"])), "linux"));
    assert!(!admits(Some(&list(&["darwin"])), "linux"));
}

#[test]
fn negation_excludes_its_own_value() {
    assert!(admits(Some(&list(&["!win32"])), "linux"));
    assert!(!admits(Some(&list(&["!win32"])), "win32"));
}

#[test]
fn all_negative_list_admits_anything_it_does_not_name() {
    assert!(admits(Some(&list(&["!win32", "!darwin"])), "linux"));
    assert!(!admits(Some(&list(&["!win32", "!darwin"])), "darwin"));
}

#[test]
fn mixed_list_requires_an_explicit_positive_hit() {
    assert!(
        !admits(Some(&list(&["!win32", "darwin"])), "linux"),
        "a mixed list must not admit a value no positive entry names"
    );
    assert!(admits(Some(&list(&["!win32", "linux"])), "linux"));
    assert!(!admits(Some(&list(&["!win32", "linux"])), "win32"));
}

#[test]
fn any_is_special_only_as_a_singleton() {
    assert!(admits(Some(&list(&["any"])), "linux"));
    assert!(
        !admits(Some(&list(&["any", "darwin"])), "linux"),
        "`any` alongside another entry is an ordinary token"
    );
}

#[test]
fn empty_list_admits_everything() {
    assert!(admits(Some(&[]), "linux"));
}

#[test]
fn unknown_tokens_match_nothing_and_never_panic() {
    assert!(!admits(Some(&list(&["wasm32"])), "x64"));
    assert!(!admits(Some(&list(&["openharmony"])), "linux"));
    assert!(admits(Some(&list(&["loong64", "x64"])), "x64"));
}

#[test]
fn negation_of_an_unknown_token_still_admits() {
    assert!(admits(Some(&list(&["!openharmony"])), "linux"));
}

#[test]
fn bare_bang_is_a_negation_of_the_empty_string() {
    assert!(admits(Some(&list(&["!"])), "linux"));
}
