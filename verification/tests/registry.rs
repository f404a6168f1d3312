//! Tarball addresses.

use pudu::config::{RegistryConfig, Url};
use pudu::dict::Dict;
use pudu::registry::{registry_for, tarball_url};

fn cfg(default: &str, scopes: &[(&str, &str)]) -> RegistryConfig {
    RegistryConfig {
        default: Url::parse(default).unwrap(),
        scopes: {
            let mut d = Dict::new();
            for (k, v) in scopes {
                d.insert(k.to_string(), Url::parse(v).unwrap());
            }
            d
        },
    }
}

fn url(name: &str, version: &str, c: &RegistryConfig) -> String {
    tarball_url(name, version, c).unwrap().as_str().to_string()
}

#[test]
fn an_unscoped_name_derives_the_npm_url() {
    let c = cfg("https://registry.npmjs.org", &[]);
    assert_eq!(
        url("left-pad", "1.3.0", &c),
        "https://registry.npmjs.org/left-pad/-/left-pad-1.3.0.tgz"
    );
}

#[test]
fn a_scoped_name_drops_the_scope_from_the_basename_only() {
    let c = cfg("https://registry.npmjs.org", &[]);
    assert_eq!(
        url("@babel/core", "7.28.6", &c),
        "https://registry.npmjs.org/@babel/core/-/core-7.28.6.tgz"
    );
}

#[test]
fn a_scope_override_changes_the_host() {
    let c = cfg(
        "https://registry.npmjs.org",
        &[("@myorg", "https://npm.mycorp.example")],
    );
    assert_eq!(
        url("@myorg/thing", "1.0.0", &c),
        "https://npm.mycorp.example/@myorg/thing/-/thing-1.0.0.tgz"
    );
}

#[test]
fn a_scope_with_no_override_falls_back_to_the_default() {
    let c = cfg(
        "https://registry.npmjs.org",
        &[("@myorg", "https://npm.mycorp.example")],
    );
    assert_eq!(
        url("@babel/core", "7.28.6", &c),
        "https://registry.npmjs.org/@babel/core/-/core-7.28.6.tgz"
    );
}

#[test]
fn scope_matching_is_exact_not_prefix() {
    let c = cfg(
        "https://registry.npmjs.org",
        &[("@myorg", "https://npm.mycorp.example")],
    );
    assert_eq!(
        url("@myorgtools/thing", "1.0.0", &c),
        "https://registry.npmjs.org/@myorgtools/thing/-/thing-1.0.0.tgz"
    );
}

#[test]
fn a_registry_path_prefix_is_preserved() {
    let c = cfg("https://npm.example.com/artifactory/api/npm/repo", &[]);
    assert_eq!(
        url("left-pad", "1.3.0", &c),
        "https://npm.example.com/artifactory/api/npm/repo/left-pad/-/left-pad-1.3.0.tgz"
    );
}

#[test]
fn a_trailing_slash_on_the_registry_changes_nothing() {
    let with = cfg("https://npm.example.com/repo/", &[]);
    let without = cfg("https://npm.example.com/repo", &[]);
    assert_eq!(
        url("left-pad", "1.3.0", &with),
        url("left-pad", "1.3.0", &without)
    );
}

#[test]
fn a_prerelease_version_survives_verbatim() {
    let c = cfg("https://registry.npmjs.org", &[]);
    assert_eq!(
        url("@babel/core", "7.0.0-beta.4", &c),
        "https://registry.npmjs.org/@babel/core/-/core-7.0.0-beta.4.tgz"
    );
}

#[test]
fn registry_for_returns_the_override_itself() {
    let c = cfg(
        "https://registry.npmjs.org",
        &[("@myorg", "https://npm.mycorp.example")],
    );
    assert_eq!(
        registry_for("@myorg/thing", &c).as_str(),
        "https://npm.mycorp.example/"
    );
}
