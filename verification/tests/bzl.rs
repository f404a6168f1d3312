//! The macro file.

use pudu::buck::bzl::render;
use pudu::buck::HEADER;

#[test]
fn the_macro_file_opens_with_the_generated_banner() {
    assert!(render().starts_with(HEADER));
}

#[test]
fn the_macro_never_passes_strip_prefix() {
    assert!(
        !render().contains("strip_prefix ="),
        "pudu.bzl must never pass strip_prefix to http_archive"
    );
}

#[test]
fn the_root_is_exposed_as_a_sub_target() {
    let out = render();
    assert!(out.contains(r#"sub_targets = {"root": [root]}"#));
}

#[test]
fn bin_entries_are_joined_under_the_unstripped_root() {
    assert!(render().contains(r#"sub_targets["bin/" + bin_name] = [root + "/" + bin_path]"#));
}

#[test]
fn sha512_is_not_passed_to_http_archive() {
    assert!(!render().contains("sha512 ="));
}

#[test]
fn the_macro_documents_why_strip_prefix_is_absent() {
    let out = render();
    assert!(out.contains("strip_prefix"), "the docstring must name it");
    assert!(out.contains("node v22.20"), "and give the concrete case");
}

#[test]
fn the_file_is_constant() {
    assert_eq!(render(), render());
}

#[test]
fn the_tree_rule_is_defined() {
    let s = render();
    assert!(s.contains("node_modules_tree = rule("));
    assert!(s.contains("ctx.actions.declare_output(\"node_modules\", dir = True)"));
}

#[test]
fn the_tree_rule_takes_node_from_the_toolchain() {
    let s = render();
    assert!(s.contains("load(\":toolchains.bzl\", \"NodeToolchainInfo\")"));
    assert!(s.contains("attrs.toolchain_dep(default = \"toolchains//:node\")"));
}

#[test]
fn tree_inputs_travel_as_a_manifest_not_as_arguments() {
    let s = render();
    assert!(s.contains("ctx.actions.write_json("));
    assert!(s.contains("with_inputs = True"));
}

#[test]
fn the_builder_hardlinks_with_a_copy_fallback() {
    let s = render();
    assert!(s.contains("fs.linkSync"));
    assert!(s.contains("fs.copyFileSync"));
}

#[test]
fn the_macro_documents_why_the_tree_is_not_a_filegroup() {
    let s = render();
    assert!(
        s.contains("filegroup"),
        "the docstring must say why the obvious rule does not work, \
         or the next reader will try it again"
    );
}
