//! Planning what to fetch.

use pudu::cli::vendor::{build_plan, is_carried_over};
use pudu::config::{RegistryConfig, Url};
use pudu::dict::{Dict, NameSet};
use pudu::error::VendorError;
use pudu::fetch::Request;
use pudu::lock::graph::{Graph, Node};
use pudu::lock::types::{PackageMeta, Resolution};
use pudu::packages::Entry;
use pudu::platform::prune::Matrix;

fn registry_config(default: &str, scopes: &[(&str, &str)]) -> RegistryConfig {
    RegistryConfig {
        default: Url::parse(default).unwrap(),
        scopes: {
            let mut d = Dict::new();
            for (k, v) in scopes {
                d.insert(k.to_string(), Url::parse(v).unwrap());
            }
            d
        },
    }
}

fn meta(resolution: Resolution) -> PackageMeta {
    PackageMeta {
        resolution,
        engines: Dict::new(),
        os: None,
        cpu: None,
        libc: None,
        has_bin: false,
        deprecated: None,
        peer_dependencies: Dict::new(),
        peer_dependencies_meta: Dict::new(),
        bundled_dependencies: Vec::new(),
    }
}

fn node(name: &str, version: &str, m: PackageMeta) -> Node {
    Node {
        name: name.into(),
        version: version.into(),
        peers: Vec::new(),
        target_name: format!("{name}@{version}").replace('/', "+"),
        optional: false,
        meta: m,
        edges: Vec::new(),
    }
}

fn graph(nodes: Vec<(&str, Node)>) -> Graph {
    Graph {
        nodes: {
            let mut d = Dict::new();
            for (k, n) in nodes {
                d.insert(k.to_string(), n);
            }
            d
        },
        roots: Vec::new(),
        cycles: Vec::new(),
    }
}

fn matrix(snapshot_keys: &[&str]) -> Matrix {
    Matrix {
        views: Dict::new(),
        platforms_by_node: {
            let mut d = Dict::new();
            for k in snapshot_keys {
                let mut on = NameSet::new();
                on.insert("linux-x64-gnu".to_string());
                d.insert(k.to_string(), on);
            }
            d
        },
    }
}

fn integrity(s: &str) -> Resolution {
    Resolution::Integrity {
        integrity: s.to_string(),
    }
}

#[test]
fn integrity_resolution_derives_the_url_via_tarball_url_and_honours_scope() {
    let g = graph(vec![(
        "@scope/pkg@1.0.0",
        node("@scope/pkg", "1.0.0", meta(integrity("sha512-abc"))),
    )]);
    let m = matrix(&["@scope/pkg@1.0.0"]);
    let cfg = registry_config(
        "https://registry.npmjs.org",
        &[("@scope", "https://npm.mycorp.example")],
    );

    let plan = build_plan(&g, &m, &cfg).unwrap();
    let req = plan.requests.get("@scope/pkg@1.0.0").unwrap();
    assert_eq!(
        req.url,
        "https://npm.mycorp.example/@scope/pkg/-/pkg-1.0.0.tgz"
    );
    assert_eq!(req.integrity, "sha512-abc");
    assert_eq!(plan.expected.get("@scope/pkg@1.0.0").unwrap().url, req.url);
}

#[test]
fn tarball_with_integrity_is_fetched_at_the_recorded_url_verbatim() {
    let g = graph(vec![(
        "pkg@1.0.0",
        node(
            "pkg",
            "1.0.0",
            meta(Resolution::Tarball {
                tarball: "https://mirror.example/pkg-1.0.0.tgz".to_string(),
                integrity: Some("sha512-def".to_string()),
            }),
        ),
    )]);
    let m = matrix(&["pkg@1.0.0"]);
    let cfg = registry_config("https://registry.npmjs.org", &[]);

    let plan = build_plan(&g, &m, &cfg).unwrap();
    let req = plan.requests.get("pkg@1.0.0").unwrap();
    assert_eq!(req.url, "https://mirror.example/pkg-1.0.0.tgz");
    assert_eq!(req.integrity, "sha512-def");
}

#[test]
fn tarball_without_integrity_is_unsupported() {
    let g = graph(vec![(
        "pkg@1.0.0",
        node(
            "pkg",
            "1.0.0",
            meta(Resolution::Tarball {
                tarball: "https://mirror.example/pkg-1.0.0.tgz".to_string(),
                integrity: None,
            }),
        ),
    )]);
    let m = matrix(&["pkg@1.0.0"]);
    let cfg = registry_config("https://registry.npmjs.org", &[]);

    let err = build_plan(&g, &m, &cfg).unwrap_err();
    match &err {
        VendorError::UnsupportedResolution { packages } => {
            assert_eq!(packages, &["pkg@1.0.0 (url, no integrity)".to_string()]);
        }
        other => panic!("expected UnsupportedResolution, got {other:?}"),
    }
}

#[test]
fn git_resolution_is_unsupported() {
    let g = graph(vec![(
        "pkg@1.0.0",
        node(
            "pkg",
            "1.0.0",
            meta(Resolution::Git {
                repo: "https://example.com/pkg.git".to_string(),
                commit: "abc123".to_string(),
            }),
        ),
    )]);
    let m = matrix(&["pkg@1.0.0"]);
    let cfg = registry_config("https://registry.npmjs.org", &[]);

    let err = build_plan(&g, &m, &cfg).unwrap_err();
    match &err {
        VendorError::UnsupportedResolution { packages } => {
            assert_eq!(packages, &["pkg@1.0.0 (git)".to_string()]);
        }
        other => panic!("expected UnsupportedResolution, got {other:?}"),
    }
}

#[test]
fn directory_resolution_is_unsupported() {
    let g = graph(vec![(
        "pkg@1.0.0",
        node(
            "pkg",
            "1.0.0",
            meta(Resolution::Directory {
                directory: "../lib".to_string(),
                kind: "directory".to_string(),
            }),
        ),
    )]);
    let m = matrix(&["pkg@1.0.0"]);
    let cfg = registry_config("https://registry.npmjs.org", &[]);

    let err = build_plan(&g, &m, &cfg).unwrap_err();
    match &err {
        VendorError::UnsupportedResolution { packages } => {
            assert_eq!(packages, &["pkg@1.0.0 (directory)".to_string()]);
        }
        other => panic!("expected UnsupportedResolution, got {other:?}"),
    }
}

#[test]
fn unsupported_resolutions_are_collected_together_not_raced() {
    let g = graph(vec![
        (
            "zgit@1.0.0",
            node(
                "zgit",
                "1.0.0",
                meta(Resolution::Git {
                    repo: "https://example.com/zgit.git".to_string(),
                    commit: "abc".to_string(),
                }),
            ),
        ),
        (
            "adir@1.0.0",
            node(
                "adir",
                "1.0.0",
                meta(Resolution::Directory {
                    directory: "../lib".to_string(),
                    kind: "directory".to_string(),
                }),
            ),
        ),
        (
            "murl@1.0.0",
            node(
                "murl",
                "1.0.0",
                meta(Resolution::Tarball {
                    tarball: "https://mirror.example/m.tgz".to_string(),
                    integrity: None,
                }),
            ),
        ),
    ]);
    let m = matrix(&["zgit@1.0.0", "adir@1.0.0", "murl@1.0.0"]);
    let cfg = registry_config("https://registry.npmjs.org", &[]);

    let err = build_plan(&g, &m, &cfg).unwrap_err();
    match &err {
        VendorError::UnsupportedResolution { packages } => {
            assert_eq!(
                packages,
                &[
                    "adir@1.0.0 (directory)".to_string(),
                    "murl@1.0.0 (url, no integrity)".to_string(),
                    "zgit@1.0.0 (git)".to_string(),
                ]
            );
        }
        other => panic!("expected UnsupportedResolution, got {other:?}"),
    }
}

#[test]
fn two_snapshot_keys_for_the_same_name_at_version_share_one_request() {
    let g = graph(vec![
        (
            "pkg@1.0.0(peer@1.0.0)",
            node("pkg", "1.0.0", meta(integrity("sha512-abc"))),
        ),
        (
            "pkg@1.0.0(peer@2.0.0)",
            node(
                "pkg",
                "1.0.0",
                meta(Resolution::Git {
                    repo: "https://example.com/pkg.git".to_string(),
                    commit: "abc".to_string(),
                }),
            ),
        ),
    ]);
    let m = matrix(&["pkg@1.0.0(peer@1.0.0)", "pkg@1.0.0(peer@2.0.0)"]);
    let cfg = registry_config("https://registry.npmjs.org", &[]);

    let plan = build_plan(&g, &m, &cfg).unwrap();
    assert_eq!(plan.requests.len(), 1);
    assert_eq!(plan.expected.len(), 1);
    assert!(plan.requests.contains_key("pkg@1.0.0"));
    assert_eq!(plan.requests.get("pkg@1.0.0").unwrap().integrity, "sha512-abc");
}

fn entry(url: &str, sha512: &str) -> Entry {
    Entry {
        url: url.to_string(),
        sha512: sha512.to_string(),
        sha256: "deadbeef".to_string(),
        size: 1,
        root: "package".to_string(),
        bin: Dict::new(),
        has_install_script: false,
    }
}

fn request(url: &str, integrity: &str) -> Request {
    Request {
        key: "pkg@1.0.0".to_string(),
        name: "pkg".to_string(),
        url: url.to_string(),
        integrity: integrity.to_string(),
    }
}

#[test]
fn matching_url_and_sha512_is_carried_over() {
    let existing = entry("https://x/pkg.tgz", "sha512-abc");
    let req = request("https://x/pkg.tgz", "sha512-abc");
    assert!(is_carried_over(Some(&existing), &req));
}

#[test]
fn matching_url_but_different_sha512_is_not_carried_over() {
    let existing = entry("https://x/pkg.tgz", "sha512-abc");
    let req = request("https://x/pkg.tgz", "sha512-different");
    assert!(!is_carried_over(Some(&existing), &req));
}

#[test]
fn matching_sha512_but_different_url_is_not_carried_over() {
    let existing = entry("https://old.example/pkg.tgz", "sha512-abc");
    let req = request("https://new.example/pkg.tgz", "sha512-abc");
    assert!(!is_carried_over(Some(&existing), &req));
}

#[test]
fn no_existing_entry_is_not_carried_over() {
    let req = request("https://x/pkg.tgz", "sha512-abc");
    assert!(!is_carried_over(None, &req));
}
