//! The instance graph.

use pudu::dict::Dict;
use pudu::error::{LockError, LockWarning};
use pudu::lock::graph::{find_cycles, EdgeKind, Graph, Node, RootKind};
use pudu::lock::snapshot_key::target_name;
use pudu::lock::types::{
    Importer, ImporterDep, Lockfile, PackageMeta, Resolution, Settings, SnapshotEntry,
};
use pudu::lock::{parse_lockfile, Probe, RawVersion};
use pudu::yaml::Yaml;
use serde_norway::Value;

fn yaml(v: &Value) -> Yaml {
    match v {
        Value::Null => Yaml::Null,
        Value::Bool(b) => Yaml::Bool(*b),
        Value::Number(_) => Yaml::Number,
        Value::String(s) => Yaml::Text(s.clone()),
        Value::Sequence(s) => Yaml::List(s.iter().map(yaml).collect()),
        Value::Mapping(m) => Yaml::Mapping(m.iter().map(|(k, v)| (yaml(k), yaml(v))).collect()),
        Value::Tagged(t) => Yaml::Tagged(Box::new(yaml(&t.value))),
    }
}

fn probe(text: &str) -> Result<Probe, String> {
    let doc: Value = serde_norway::from_str(text).map_err(|e| e.to_string())?;
    let lockfile_version = match doc.get("lockfileVersion") {
        None => None,
        Some(Value::String(s)) => Some(RawVersion::Str(s.clone())),
        Some(v) => Some(num(v.as_f64().ok_or("not a version")?)),
    };
    let patched_dependencies = match doc.get("patchedDependencies") {
        None | Some(Value::Null) => None,
        Some(v) => Some(yaml(v)),
    };
    Ok(Probe {
        lockfile_version,
        patched_dependencies,
    })
}

fn num(n: f64) -> RawVersion {
    RawVersion::Num {
        text: format!("{n}"),
        finite: n.is_finite(),
    }
}

fn entries(v: Option<&Value>) -> Vec<(String, &Value)> {
    match v {
        Some(Value::Mapping(m)) => m
            .iter()
            .map(|(k, v)| (k.as_str().unwrap().to_string(), v))
            .collect(),
        _ => Vec::new(),
    }
}

fn text_of(v: &Value) -> String {
    v.as_str().unwrap().to_string()
}

fn texts_under(v: Option<&Value>) -> Dict<String> {
    let mut d = Dict::new();
    for (k, v) in entries(v) {
        d.insert(k, text_of(v));
    }
    d
}

fn list(v: Option<&Value>) -> Option<Vec<String>> {
    v.and_then(Value::as_sequence)
        .map(|s| s.iter().map(text_of).collect())
}

fn flag(v: Option<&Value>, default: bool) -> bool {
    v.and_then(Value::as_bool).unwrap_or(default)
}

fn resolution(v: &Value) -> Resolution {
    let at = |k: &str| v.get(k).map(text_of);
    if let (None, Some(integrity)) = (at("tarball"), at("integrity")) {
        return Resolution::Integrity { integrity };
    }
    if let Some(tarball) = at("tarball") {
        return Resolution::Tarball {
            tarball,
            integrity: at("integrity"),
        };
    }
    if let (Some(repo), Some(commit)) = (at("repo"), at("commit")) {
        return Resolution::Git { repo, commit };
    }
    Resolution::Directory {
        directory: at("directory").unwrap(),
        kind: at("type").unwrap(),
    }
}

fn package(v: &Value) -> PackageMeta {
    PackageMeta {
        resolution: resolution(v.get("resolution").unwrap()),
        engines: texts_under(v.get("engines")),
        os: list(v.get("os")),
        cpu: list(v.get("cpu")),
        libc: list(v.get("libc")),
        has_bin: flag(v.get("hasBin"), false),
        deprecated: v.get("deprecated").map(text_of),
        peer_dependencies: texts_under(v.get("peerDependencies")),
        peer_dependencies_meta: Dict::new(),
        bundled_dependencies: list(v.get("bundledDependencies")).unwrap_or_default(),
    }
}

fn deps(v: Option<&Value>) -> Dict<ImporterDep> {
    let mut d = Dict::new();
    for (k, v) in entries(v) {
        d.insert(
            k,
            ImporterDep {
                specifier: text_of(v.get("specifier").unwrap()),
                version: text_of(v.get("version").unwrap()),
            },
        );
    }
    d
}

fn lockfile_body(text: &str) -> Result<Lockfile, String> {
    let doc: Value = serde_norway::from_str(text).map_err(|e| e.to_string())?;
    let settings = doc.get("settings");
    let setting = |k: &str| settings.and_then(|s| s.get(k));
    let mut importers = Dict::new();
    for (k, v) in entries(doc.get("importers")) {
        importers.insert(
            k,
            Importer {
                dependencies: deps(v.get("dependencies")),
                dev_dependencies: deps(v.get("devDependencies")),
                optional_dependencies: deps(v.get("optionalDependencies")),
            },
        );
    }
    let mut packages = Dict::new();
    for (k, v) in entries(doc.get("packages")) {
        packages.insert(k, package(v));
    }
    let mut snapshots = Dict::new();
    for (k, v) in entries(doc.get("snapshots")) {
        snapshots.insert(
            k,
            SnapshotEntry {
                dependencies: texts_under(v.get("dependencies")),
                optional_dependencies: texts_under(v.get("optionalDependencies")),
                optional: flag(v.get("optional"), false),
                transitive_peer_dependencies: list(v.get("transitivePeerDependencies"))
                    .unwrap_or_default(),
            },
        );
    }
    Ok(Lockfile {
        lockfile_version: String::new(),
        settings: Settings {
            auto_install_peers: flag(setting("autoInstallPeers"), true),
            exclude_links_from_lockfile: flag(setting("excludeLinksFromLockfile"), false),
        },
        importers,
        packages,
        snapshots,
    })
}

fn read_lockfile(text: &str, path: &str) -> Result<(Lockfile, Vec<LockWarning>), LockError> {
    parse_lockfile(text, path, probe(text), lockfile_body(text))
}

fn at<'a>(g: &'a Graph, key: &str) -> &'a Node {
    g.nodes.get(key).unwrap()
}

fn build(yaml: &str) -> Graph {
    let (lf, _) = read_lockfile(yaml, "/x/pnpm-lock.yaml").expect("parses");
    Graph::build(&lf).expect("builds")
}

const ALIAS_LOCK: &str = r#"
lockfileVersion: '9.0'
importers:
  .:
    dependencies:
      '@isaacs/cliui':
        specifier: ^8.0.2
        version: 8.0.2
packages:
  '@isaacs/cliui@8.0.2':
    resolution: {integrity: sha512-a}
  string-width@5.1.2:
    resolution: {integrity: sha512-b}
  string-width@4.2.3:
    resolution: {integrity: sha512-c}
snapshots:
  '@isaacs/cliui@8.0.2':
    dependencies:
      string-width: 5.1.2
      string-width-cjs: string-width@4.2.3
  string-width@5.1.2: {}
  string-width@4.2.3: {}
"#;

#[test]
fn alias_edge_resolves_to_the_aliased_package_and_keeps_the_link_name() {
    let g = build(ALIAS_LOCK);
    let cliui = at(&g, "@isaacs/cliui@8.0.2");
    let aliased = cliui
        .edges
        .iter()
        .find(|e| e.link_name == "string-width-cjs")
        .expect("the alias edge must survive under its link name");
    assert_eq!(
        aliased.target, "string-width@4.2.3",
        "resolves to the aliased package"
    );
    assert_eq!(
        aliased.link_name, "string-width-cjs",
        "link name is retained"
    );

    let plain = cliui
        .edges
        .iter()
        .find(|e| e.link_name == "string-width")
        .unwrap();
    assert_eq!(plain.target, "string-width@5.1.2");
}

#[test]
fn peer_suffixed_edge_value_resolves_to_the_suffixed_key() {
    let g = build(
        r#"
lockfileVersion: '9.0'
importers: {}
packages:
  a@1.0.0:
    resolution: {integrity: sha512-a}
  eslint@9.39.2:
    resolution: {integrity: sha512-b}
  jiti@2.6.1:
    resolution: {integrity: sha512-c}
snapshots:
  a@1.0.0:
    dependencies:
      eslint: 9.39.2(jiti@2.6.1)
  'eslint@9.39.2(jiti@2.6.1)':
    dependencies:
      jiti: 2.6.1
  jiti@2.6.1: {}
"#,
    );
    assert_eq!(
        at(&g, "a@1.0.0").edges[0].target,
        "eslint@9.39.2(jiti@2.6.1)"
    );
}

#[test]
fn peer_instances_are_separate_nodes_sharing_one_packages_entry() {
    let g = build(
        r#"
lockfileVersion: '9.0'
importers: {}
packages:
  dom@1.0.0:
    resolution: {integrity: sha512-a}
  react@17.0.0:
    resolution: {integrity: sha512-b}
  react@18.0.0:
    resolution: {integrity: sha512-c}
snapshots:
  'dom@1.0.0(react@17.0.0)':
    dependencies: {react: 17.0.0}
  'dom@1.0.0(react@18.0.0)':
    dependencies: {react: 18.0.0}
  react@17.0.0: {}
  react@18.0.0: {}
"#,
    );
    assert!(g.nodes.contains_key("dom@1.0.0(react@17.0.0)"));
    assert!(g.nodes.contains_key("dom@1.0.0(react@18.0.0)"));
    assert_ne!(
        at(&g, "dom@1.0.0(react@17.0.0)").target_name,
        at(&g, "dom@1.0.0(react@18.0.0)").target_name,
        "distinct instances need distinct Buck targets"
    );
}

#[test]
fn roots_carry_their_importer_and_kind() {
    let g = build(
        r#"
lockfileVersion: '9.0'
importers:
  .:
    dependencies:
      a: {specifier: ^1, version: 1.0.0}
  packages/app:
    devDependencies:
      a: {specifier: ^1, version: 1.0.0}
    optionalDependencies:
      b: {specifier: ^1, version: 1.0.0}
packages:
  a@1.0.0: {resolution: {integrity: sha512-a}}
  b@1.0.0: {resolution: {integrity: sha512-b}}
snapshots:
  a@1.0.0: {}
  b@1.0.0: {}
"#,
    );
    assert_eq!(g.roots.len(), 3);
    assert!(
        g.roots
            .iter()
            .any(|r| r.importer == "." && r.kind == RootKind::Prod)
    );
    assert!(
        g.roots
            .iter()
            .any(|r| r.importer == "packages/app" && r.kind == RootKind::Dev)
    );
    assert!(g.roots.iter().any(|r| r.kind == RootKind::Optional));
}

#[test]
fn workspace_specifier_root_is_recorded_but_not_resolved() {
    let g = build(
        r#"
lockfileVersion: '9.0'
importers:
  packages/app:
    dependencies:
      '@fixture/lib': {specifier: 'workspace:*', version: link:../lib}
packages: {}
snapshots: {}
"#,
    );
    let r = &g.roots[0];
    assert_eq!(r.link_name, "@fixture/lib");
    assert!(r.target.is_none(), "a link: root resolves to no node at S1");
    assert_eq!(r.specifier, "workspace:*");
}

#[test]
fn optional_edges_are_tagged() {
    let g = build(
        r#"
lockfileVersion: '9.0'
importers: {}
packages:
  a@1.0.0: {resolution: {integrity: sha512-a}}
  b@1.0.0: {resolution: {integrity: sha512-b}}
snapshots:
  a@1.0.0:
    optionalDependencies: {b: 1.0.0}
  b@1.0.0: {}
"#,
    );
    assert_eq!(at(&g, "a@1.0.0").edges[0].kind, EdgeKind::Optional);
}

#[test]
fn missing_package_metadata_names_snapshot_and_base() {
    let (lf, _) = read_lockfile(
        "lockfileVersion: '9.0'\nimporters: {}\npackages: {}\nsnapshots:\n  a@1.0.0: {}\n", "/x")
    .unwrap();
    let e = Graph::build(&lf).unwrap_err();
    let m = e.message();
    assert!(m.contains("a@1.0.0"), "{m}");
}

#[test]
fn unresolved_edge_names_source_link_and_target() {
    let (lf, _) = read_lockfile(
        r#"
lockfileVersion: '9.0'
importers: {}
packages:
  a@1.0.0: {resolution: {integrity: sha512-a}}
snapshots:
  a@1.0.0:
    dependencies: {ghost: 9.9.9}
"#, "/x")
    .unwrap();
    let e = Graph::build(&lf).unwrap_err();
    let m = e.message();
    assert!(
        m.contains("a@1.0.0") && m.contains("ghost") && m.contains("ghost@9.9.9"),
        "{m}"
    );
}

#[test]
fn target_name_collision_is_an_error() {
    let a = "x@1.0.0(a@1.0.0)";
    let b = "x@1.0.0_a@1.0.0";
    assert_eq!(
        target_name(a),
        target_name(b),
        "sanity: the two keys must actually mangle to the same target name"
    );

    let (lf, _) = read_lockfile(
        r#"
lockfileVersion: '9.0'
importers: {}
packages:
  x@1.0.0:
    resolution: {integrity: sha512-a}
  x@1.0.0_a@1.0.0:
    resolution: {integrity: sha512-b}
  a@1.0.0:
    resolution: {integrity: sha512-c}
snapshots:
  'x@1.0.0(a@1.0.0)': {}
  x@1.0.0_a@1.0.0: {}
  a@1.0.0: {}
"#, "/x")
    .unwrap();
    let e = Graph::build(&lf).unwrap_err();
    assert!(
        matches!(e, LockError::TargetNameCollision { .. }),
        "expected a TargetNameCollision, got {e:?}"
    );
    let m = e.message();
    assert!(
        m.contains("x@1.0.0(a@1.0.0)") && m.contains("x@1.0.0_a@1.0.0"),
        "{m}"
    );
}

#[test]
fn edges_are_sorted_by_link_name() {
    let g = build(
        r#"
lockfileVersion: '9.0'
importers: {}
packages:
  a@1.0.0: {resolution: {integrity: sha512-a}}
  m@1.0.0: {resolution: {integrity: sha512-m}}
  z@1.0.0: {resolution: {integrity: sha512-z}}
snapshots:
  a@1.0.0:
    dependencies: {z: 1.0.0, m: 1.0.0}
  m@1.0.0: {}
  z@1.0.0: {}
"#,
    );
    let names: Vec<_> = at(&g, "a@1.0.0")
        .edges
        .iter()
        .map(|e| e.link_name.as_str())
        .collect();
    assert_eq!(names, vec!["m", "z"], "deterministic order");
}

#[test]
fn cycles_are_reported_group_by_group() {
    let g = build(
        r#"
lockfileVersion: '9.0'
importers: {}
packages:
  a@1.0.0:
    resolution: {integrity: sha512-a}
  b@1.0.0:
    resolution: {integrity: sha512-b}
  c@1.0.0:
    resolution: {integrity: sha512-c}
  d@1.0.0:
    resolution: {integrity: sha512-d}
  e@1.0.0:
    resolution: {integrity: sha512-e}
snapshots:
  a@1.0.0:
    dependencies:
      d: 1.0.0
  b@1.0.0:
    dependencies:
      b: 1.0.0
  c@1.0.0:
    dependencies:
      a: 1.0.0
      e: 1.0.0
  d@1.0.0:
    optionalDependencies:
      c: 1.0.0
  e@1.0.0: {}
"#,
    );
    assert_eq!(
        g.cycles,
        vec![
            vec![
                "a@1.0.0".to_string(),
                "c@1.0.0".to_string(),
                "d@1.0.0".to_string()
            ],
            vec!["b@1.0.0".to_string()],
        ]
    );
}

#[test]
fn a_graph_without_cycles_reports_none() {
    let g = build(ALIAS_LOCK);
    assert!(g.cycles.is_empty());
    assert!(find_cycles(&Dict::new()).is_empty());
}

#[test]
fn a_link_listed_twice_is_an_error() {
    let (lf, _) = read_lockfile(
        r#"
lockfileVersion: '9.0'
importers: {}
packages:
  a@1.0.0:
    resolution: {integrity: sha512-a}
  b@1.0.0:
    resolution: {integrity: sha512-b}
  c@1.0.0:
    resolution: {integrity: sha512-c}
snapshots:
  a@1.0.0:
    dependencies:
      b: 1.0.0
      c: 1.0.0
    optionalDependencies:
      c: 1.0.0
  b@1.0.0: {}
  c@1.0.0: {}
"#,
        "/x/pnpm-lock.yaml",
    )
    .unwrap();
    let e = Graph::build(&lf).unwrap_err();
    assert_eq!(
        e,
        LockError::DuplicateLinkName {
            snapshot: "a@1.0.0".to_string(),
            link_name: "c".to_string()
        }
    );
    assert_eq!(
        e.message(),
        "`a@1.0.0` lists `c` in both `dependencies` and `optionalDependencies`"
    );
}

#[test]
fn a_key_with_text_behind_its_groups_is_an_error() {
    let (lf, _) = read_lockfile(
        r#"
lockfileVersion: '9.0'
importers: {}
packages:
  x@1.0.0:
    resolution: {integrity: sha512-a}
snapshots:
  'x@1.0.0(a@1.0.0)b@2.0.0': {}
"#,
        "/x/pnpm-lock.yaml",
    )
    .unwrap();
    assert!(matches!(
        Graph::build(&lf),
        Err(LockError::KeyParse { offset: 16, .. })
    ));
}
