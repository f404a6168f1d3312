//! The package and tree targets.

use pudu::buck::emit::{importer_target_name, render};
use pudu::buck::store::Tree;
use pudu::buck::HEADER;
use pudu::dict::Dict;
use pudu::error::BuckError;
use pudu::packages::Entry;

fn texts(pairs: &[(&str, &str)]) -> Dict<String> {
    let mut d = Dict::new();
    for (k, v) in pairs {
        d.insert(k.to_string(), v.to_string());
    }
    d
}

fn trees_of(trees: Vec<(String, Tree)>) -> Dict<Tree> {
    let mut d = Dict::new();
    for (k, t) in trees {
        d.insert(k, t);
    }
    d
}

fn entry(url: &str, root: &str, bin: &[(&str, &str)]) -> Entry {
    Entry {
        url: url.to_string(),
        sha512: "sha512-AAAA".to_string(),
        sha256: "0123456789abcdef".to_string(),
        size: 1234,
        root: root.to_string(),
        bin: texts(bin),
        has_install_script: false,
    }
}

fn one(key: &str, e: Entry) -> Dict<Entry> {
    {
        let mut d = Dict::new();
        d.insert(key.to_string(), e);
        d
    }
}

#[test]
fn the_file_opens_with_the_banner_and_loads_the_macro() {
    let t = one("left-pad@1.3.0", entry("https://r/lp.tgz", "package", &[]));
    let out = render(&t, &Dict::new(), "third-party/js").unwrap();
    assert!(out.starts_with(HEADER));
    assert!(
        out.contains(
            r#"load("//third-party/js:pudu.bzl", "node_modules_tree", "npm_package")"#
        )
    );
}

#[test]
fn the_load_label_follows_the_configured_third_party_dir() {
    let t = one("left-pad@1.3.0", entry("https://r/lp.tgz", "package", &[]));
    let out = render(&t, &Dict::new(), "vendor/npm").unwrap();
    assert!(
        out.contains(r#"load("//vendor/npm:pudu.bzl", "node_modules_tree", "npm_package")"#)
    );
}

#[test]
fn a_scoped_name_is_mangled_through_target_name() {
    let t = one(
        "@types/node@22.20.0",
        entry("https://r/node.tgz", "node v22.20", &[]),
    );
    let out = render(&t, &Dict::new(), "third-party/js").unwrap();
    assert!(out.contains(r#"name = "@types+node@22.20.0","#), "{out}");
    assert!(!out.contains("@types/node@22.20.0"));
}

#[test]
fn a_space_in_the_root_is_emitted_as_a_quoted_literal() {
    let t = one(
        "@types/node@22.20.0",
        entry("https://r/node.tgz", "node v22.20", &[]),
    );
    let out = render(&t, &Dict::new(), "third-party/js").unwrap();
    assert!(out.contains(r#"root = "node v22.20","#));
    assert!(!out.contains("strip_prefix"));
}

#[test]
fn bin_is_omitted_when_empty_and_sorted_when_present() {
    let empty = one("left-pad@1.3.0", entry("https://r/lp.tgz", "package", &[]));
    assert!(
        !render(&empty, &Dict::new(), "third-party/js")
            .unwrap()
            .contains("bin =")
    );

    let two = one(
        "tool@1.0.0",
        entry(
            "https://r/t.tgz",
            "package",
            &[("zed", "z.js"), ("abe", "a.js")],
        ),
    );
    let out = render(&two, &Dict::new(), "third-party/js").unwrap();
    let abe = out.find("\"abe\"").unwrap();
    let zed = out.find("\"zed\"").unwrap();
    assert!(abe < zed, "bin entries must be sorted");
}

#[test]
fn packages_are_emitted_in_key_order() {
    let mut t = one("zeta@1.0.0", entry("https://r/z.tgz", "package", &[]));
    t.insert(
        "alpha@1.0.0".to_string(),
        entry("https://r/a.tgz", "package", &[]),
    );
    let out = render(&t, &Dict::new(), "third-party/js").unwrap();
    assert!(out.find("alpha@1.0.0").unwrap() < out.find("zeta@1.0.0").unwrap());
}

#[test]
fn two_versions_of_one_package_get_two_targets() {
    let mut t = one("semver@7.6.3", entry("https://r/s7.tgz", "package", &[]));
    t.insert(
        "semver@6.3.1".to_string(),
        entry("https://r/s6.tgz", "package", &[]),
    );
    let out = render(&t, &Dict::new(), "third-party/js").unwrap();
    assert_eq!(out.matches("npm_package(").count(), 2);
    assert!(out.contains(r#"name = "semver@6.3.1","#));
    assert!(out.contains(r#"name = "semver@7.6.3","#));
}

#[test]
fn an_unaddressable_bin_name_fails_naming_the_package() {
    let t = one(
        "tool@1.0.0",
        entry("https://r/t.tgz", "package", &[("bang!", "b.js")]),
    );
    let err = render(&t, &Dict::new(), "third-party/js").unwrap_err();
    let msg = err.message();
    assert!(msg.contains("tool@1.0.0"), "{msg}");
    assert!(msg.contains("bang!"), "{msg}");
}

#[test]
fn rendering_is_deterministic() {
    let mut t = one("zeta@1.0.0", entry("https://r/z.tgz", "package", &[]));
    t.insert(
        "alpha@1.0.0".to_string(),
        entry("https://r/a.tgz", "package", &[("x", "x.js")]),
    );
    assert_eq!(
        render(&t, &Dict::new(), "third-party/js").unwrap(),
        render(&t, &Dict::new(), "third-party/js").unwrap()
    );
}

#[test]
fn sha512_and_has_install_script_do_not_reach_the_output() {
    let t = one("left-pad@1.3.0", entry("https://r/lp.tgz", "package", &[]));
    let out = render(&t, &Dict::new(), "third-party/js").unwrap();
    assert!(!out.contains("sha512"));
    assert!(!out.contains("has_install_script"));
}

fn tree_of(links: &[(&str, &str)], copies: &[(&str, &str)]) -> Tree {
    Tree { copies: texts(copies), links: texts(links) }
}

#[test]
fn the_root_importer_is_named_root() {
    assert_eq!(importer_target_name("."), "root");
}

#[test]
fn a_nested_importer_flattens_its_path() {
    assert_eq!(importer_target_name("packages/legacy"), "packages_legacy");
}

#[test]
fn a_tree_target_is_emitted_per_importer() {
    let trees = trees_of(vec![(
        ".".to_string(),
        tree_of(
            &[("left-pad", ".pnpm/left-pad@1.3.0/node_modules/left-pad")],
            &[(
                ".pnpm/left-pad@1.3.0/node_modules/left-pad",
                "left-pad@1.3.0",
            )],
        ),
    )]);
    let out = render(&Dict::new(), &trees, "third-party/js").unwrap();
    assert!(out.contains("node_modules_tree(\n    name = \"root_node_modules\","));
    assert!(out.contains("\"left-pad\": \".pnpm/left-pad@1.3.0/node_modules/left-pad\""));
    assert!(out.contains(
        "\".pnpm/left-pad@1.3.0/node_modules/left-pad\": \
         \"//third-party/js:left-pad@1.3.0[root]\""
    ));
}

#[test]
fn the_tree_macro_is_loaded() {
    let trees = trees_of(vec![(".".to_string(), tree_of(&[], &[]))]);
    let out = render(&Dict::new(), &trees, "third-party/js").unwrap();
    assert!(out.contains("\"node_modules_tree\""));
}

#[test]
fn colliding_importer_names_are_rejected() {
    let trees = trees_of(vec![
        ("a/b".to_string(), tree_of(&[], &[])),
        ("a_b".to_string(), tree_of(&[], &[])),
    ]);
    let err = render(&Dict::new(), &trees, "third-party/js").unwrap_err();
    assert!(matches!(err, BuckError::ImporterNameCollision { .. }));
}
