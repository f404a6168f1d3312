//! The virtual store.

use pudu::buck::store::{build, Tree};
use pudu::dict::{Dict, NameSet};
use pudu::lock::graph::Graph;
use pudu::lock::types::{
    Importer, ImporterDep, Lockfile, PackageMeta, Resolution, Settings, SnapshotEntry,
};
use pudu::packages::Entry;
use serde_norway::Value;
fn entries(v: Option<&Value>) -> Vec<(String, &Value)> {
    match v {
        Some(Value::Mapping(m)) => m
            .iter()
            .map(|(k, v)| (k.as_str().unwrap().to_string(), v))
            .collect(),
        _ => Vec::new(),
    }
}

fn text_of(v: &Value) -> String {
    v.as_str().unwrap().to_string()
}

fn texts_under(v: Option<&Value>) -> Dict<String> {
    let mut d = Dict::new();
    for (k, v) in entries(v) {
        d.insert(k, text_of(v));
    }
    d
}

fn list(v: Option<&Value>) -> Option<Vec<String>> {
    v.and_then(Value::as_sequence)
        .map(|s| s.iter().map(text_of).collect())
}

fn flag(v: Option<&Value>, default: bool) -> bool {
    v.and_then(Value::as_bool).unwrap_or(default)
}

fn resolution(v: &Value) -> Resolution {
    let at = |k: &str| v.get(k).map(text_of);
    if let (None, Some(integrity)) = (at("tarball"), at("integrity")) {
        return Resolution::Integrity { integrity };
    }
    if let Some(tarball) = at("tarball") {
        return Resolution::Tarball {
            tarball,
            integrity: at("integrity"),
        };
    }
    if let (Some(repo), Some(commit)) = (at("repo"), at("commit")) {
        return Resolution::Git { repo, commit };
    }
    Resolution::Directory {
        directory: at("directory").unwrap(),
        kind: at("type").unwrap(),
    }
}

fn package(v: &Value) -> PackageMeta {
    PackageMeta {
        resolution: resolution(v.get("resolution").unwrap()),
        engines: texts_under(v.get("engines")),
        os: list(v.get("os")),
        cpu: list(v.get("cpu")),
        libc: list(v.get("libc")),
        has_bin: flag(v.get("hasBin"), false),
        deprecated: v.get("deprecated").map(text_of),
        peer_dependencies: texts_under(v.get("peerDependencies")),
        peer_dependencies_meta: Dict::new(),
        bundled_dependencies: list(v.get("bundledDependencies")).unwrap_or_default(),
    }
}

fn deps(v: Option<&Value>) -> Dict<ImporterDep> {
    let mut d = Dict::new();
    for (k, v) in entries(v) {
        d.insert(
            k,
            ImporterDep {
                specifier: text_of(v.get("specifier").unwrap()),
                version: text_of(v.get("version").unwrap()),
            },
        );
    }
    d
}

fn lockfile_body(text: &str) -> Result<Lockfile, String> {
    let doc: Value = serde_norway::from_str(text).map_err(|e| e.to_string())?;
    let settings = doc.get("settings");
    let setting = |k: &str| settings.and_then(|s| s.get(k));
    let mut importers = Dict::new();
    for (k, v) in entries(doc.get("importers")) {
        importers.insert(
            k,
            Importer {
                dependencies: deps(v.get("dependencies")),
                dev_dependencies: deps(v.get("devDependencies")),
                optional_dependencies: deps(v.get("optionalDependencies")),
            },
        );
    }
    let mut packages = Dict::new();
    for (k, v) in entries(doc.get("packages")) {
        packages.insert(k, package(v));
    }
    let mut snapshots = Dict::new();
    for (k, v) in entries(doc.get("snapshots")) {
        snapshots.insert(
            k,
            SnapshotEntry {
                dependencies: texts_under(v.get("dependencies")),
                optional_dependencies: texts_under(v.get("optionalDependencies")),
                optional: flag(v.get("optional"), false),
                transitive_peer_dependencies: list(v.get("transitivePeerDependencies"))
                    .unwrap_or_default(),
            },
        );
    }
    Ok(Lockfile {
        lockfile_version: String::new(),
        settings: Settings {
            auto_install_peers: flag(setting("autoInstallPeers"), true),
            exclude_links_from_lockfile: flag(setting("excludeLinksFromLockfile"), false),
        },
        importers,
        packages,
        snapshots,
    })
}


fn names(graph: &Graph, but: &str) -> NameSet {
    let mut out = NameSet::new();
    for i in 0..graph.nodes.len() {
        if graph.nodes.key(i) != but {
            out.insert(graph.nodes.key(i).clone());
        }
    }
    out
}

fn lockfile() -> Lockfile {
    lockfile_body(
        r#"
lockfileVersion: '9.0'
importers:
  .:
    dependencies:
      debug:
        specifier: 4.3.4
        version: 4.3.4
      '@jridgewell/gen-mapping':
        specifier: 0.3.5
        version: 0.3.5
packages:
  debug@4.3.4:
    resolution: {integrity: sha512-x}
  ms@2.1.2:
    resolution: {integrity: sha512-x}
  '@jridgewell/gen-mapping@0.3.5':
    resolution: {integrity: sha512-x}
  '@jridgewell/set-array@1.2.1':
    resolution: {integrity: sha512-x}
  left-pad@1.3.0:
    resolution: {integrity: sha512-x}
snapshots:
  debug@4.3.4:
    dependencies:
      ms: 2.1.2
  ms@2.1.2: {}
  '@jridgewell/gen-mapping@0.3.5':
    dependencies:
      '@jridgewell/set-array': 1.2.1
  '@jridgewell/set-array@1.2.1': {}
  left-pad@1.3.0: {}
"#,
    )
    .unwrap()
}

fn table(bins: &[(&str, &str, &str)]) -> Dict<Entry> {
    let mut out = Dict::new();
    for (key, name, path) in bins {
        let mut bin = Dict::new();
        bin.insert(name.to_string(), path.to_string());
        out.insert(
            key.to_string(),
            Entry {
                url: String::new(),
                sha512: String::new(),
                sha256: String::new(),
                size: 0,
                root: "package".to_string(),
                bin,
                has_install_script: false,
            },
        );
    }
    out
}

fn tree() -> Tree {
    let graph = Graph::build(&lockfile()).unwrap();
    let nodes = names(&graph, "");
    build(&graph, &nodes, &table(&[]), ".")
}

#[test]
fn every_reachable_package_is_copied_into_the_virtual_store() {
    let t = tree();
    assert_eq!(
        t.copies.get(".pnpm/debug@4.3.4/node_modules/debug"),
        Some(&"debug@4.3.4".to_string())
    );
    assert_eq!(
        t.copies
            .get(".pnpm/@jridgewell+gen-mapping@0.3.5/node_modules/@jridgewell/gen-mapping"),
        Some(&"@jridgewell/gen-mapping@0.3.5".to_string())
    );
}

#[test]
fn an_unscoped_top_level_link_needs_no_parent_prefix() {
    assert_eq!(
        tree().links.get("debug"),
        Some(&".pnpm/debug@4.3.4/node_modules/debug".to_string())
    );
}

#[test]
fn a_scoped_top_level_link_climbs_one_level() {
    assert_eq!(
        tree().links.get("@jridgewell/gen-mapping"),
        Some(
            &"../.pnpm/@jridgewell+gen-mapping@0.3.5/node_modules/@jridgewell/gen-mapping"
                .to_string()
        )
    );
}

#[test]
fn an_unscoped_sibling_link_climbs_two_levels() {
    assert_eq!(
        tree().links.get(".pnpm/debug@4.3.4/node_modules/ms"),
        Some(&"../../ms@2.1.2/node_modules/ms".to_string())
    );
}

#[test]
fn a_scoped_sibling_link_climbs_three_levels() {
    assert_eq!(
        tree()
            .links
            .get(".pnpm/@jridgewell+gen-mapping@0.3.5/node_modules/@jridgewell/set-array"),
        Some(
            &"../../../@jridgewell+set-array@1.2.1/node_modules/@jridgewell/set-array"
                .to_string()
        )
    );
}

#[test]
fn a_direct_dependencys_bin_is_linked_at_the_top_level() {
    let graph = Graph::build(&lockfile()).unwrap();
    let nodes = names(&graph, "");
    let t = build(
        &graph,
        &nodes,
        &table(&[("debug@4.3.4", "debug", "bin/debug.js")]),
        ".",
    );
    assert_eq!(
        t.links.get(".bin/debug"),
        Some(&"../.pnpm/debug@4.3.4/node_modules/debug/bin/debug.js".to_string())
    );
}

#[test]
fn a_transitive_bin_is_linked_inside_the_dependents_store_directory() {
    let graph = Graph::build(&lockfile()).unwrap();
    let nodes = names(&graph, "");
    let t = build(
        &graph,
        &nodes,
        &table(&[("ms@2.1.2", "ms", "bin/ms.js")]),
        ".",
    );
    assert_eq!(
        t.links.get(".pnpm/debug@4.3.4/node_modules/.bin/ms"),
        Some(&"../../../ms@2.1.2/node_modules/ms/bin/ms.js".to_string())
    );
}

#[test]
fn a_pruned_package_is_absent_from_copies_and_links() {
    let graph = Graph::build(&lockfile()).unwrap();
    let nodes = names(&graph, "ms@2.1.2");
    let t = build(&graph, &nodes, &table(&[]), ".");
    assert!(!t.copies.contains_key(".pnpm/ms@2.1.2/node_modules/ms"));
    assert!(
        !t.links.contains_key(".pnpm/debug@4.3.4/node_modules/ms"),
        "a link to a pruned package would dangle, and a dangling link builds clean"
    );
}

#[test]
fn a_second_importer_gets_only_its_own_top_level_links() {
    let t = tree();
    assert!(t.links.contains_key("debug"));
    assert!(!t.links.contains_key("ms"), "ms is transitive, not direct");
}

#[test]
fn a_package_no_importer_depends_on_is_not_copied_into_the_tree() {
    let graph = Graph::build(&lockfile()).unwrap();
    let mut nodes = names(&graph, "");
    nodes.insert("left-pad@1.3.0".to_string());
    let t = build(&graph, &nodes, &table(&[]), ".");
    assert!(!(0..t.copies.len()).any(|i| t.copies.value(i) == "left-pad@1.3.0"));
}
