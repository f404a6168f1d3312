//! What the commands decide, from the texts they read to the texts they write.

use std::io::Write;

use base64::Engine;
use pudu::buck::{Generated, OnDisk};
use pudu::cli::buckify::produce;
use pudu::cli::config_check::{count_line, early_envelope, envelope, envelope_text, ok_line};
use pudu::cli::context::{config_error, directory_error};
use pudu::cli::debug::{platforms, print_graph, reports_text};
use pudu::cli::init::{
    detect, locate, may_scaffold, outcome_warnings, scaffold, third_party_writes, DirProbe, Found,
    Scaffold, TOOLCHAINS_BZL, Workspace,
};
use pudu::cli::stub::unimplemented;
use pudu::cli::toolchain::AppendOutcome;
use pudu::cli::vendor::{collect, prepare, split_requests, Prepared};
use pudu::config::{Config, RawConfig};
use pudu::dict::Dict;
use pudu::error::{exit_code, CliError, ConfigError, ExitCode, Failure, LockError, LockWarning};
use pudu::fetch::settle;
use pudu::lock::graph::Graph;
use pudu::lock::types::{
    Importer, ImporterDep, Lockfile, PackageMeta, Resolution, Settings, SnapshotEntry,
};
use pudu::lock::{parse_lockfile, Probe, RawVersion};
use pudu::packages::{Loaded, PackageTable};
use pudu::platform::{Cpu, Os};
use pudu::tarball::sha512_digest;
use pudu::yaml::Yaml;
use serde::de::{Deserializer, Error, IgnoredAny, MapAccess, Visitor};
use serde_norway::Value;

/// Finds the block of a workspace file and skips everything else.
struct BlockVisitor;

impl<'de> Visitor<'de> for BlockVisitor {
    type Value = Option<Value>;

    fn expecting(&self, f: &mut std::fmt::Formatter<'_>) -> std::fmt::Result {
        f.write_str("struct WorkspaceYaml")
    }

    fn visit_map<A: MapAccess<'de>>(self, mut map: A) -> Result<Option<Value>, A::Error> {
        let mut block = None;
        while let Some(name) = map.next_key::<String>()? {
            if name != "supportedArchitectures" {
                map.next_value::<IgnoredAny>()?;
            } else if block.is_some() {
                return Err(A::Error::duplicate_field("supportedArchitectures"));
            } else {
                block = Some(map.next_value::<Option<Value>>()?);
            }
        }
        Ok(block.flatten())
    }
}

fn yaml_value(v: Value) -> Yaml {
    match v {
        Value::Null => Yaml::Null,
        Value::Bool(b) => Yaml::Bool(b),
        Value::Number(_) => Yaml::Number,
        Value::String(s) => Yaml::Text(s),
        Value::Sequence(s) => Yaml::List(s.into_iter().map(yaml_value).collect()),
        Value::Mapping(m) => Yaml::Mapping(
            m.into_iter()
                .map(|(k, v)| (yaml_value(k), yaml_value(v)))
                .collect(),
        ),
        Value::Tagged(t) => Yaml::Tagged(Box::new(yaml_value(t.value))),
    }
}

fn workspace(text: &str) -> Workspace {
    let reading = serde_norway::Deserializer::from_str(text)
        .deserialize_struct("WorkspaceYaml", &["supportedArchitectures"], BlockVisitor)
        .map(|block| block.map(yaml_value))
        .map_err(|e| e.to_string());
    Workspace {
        text: text.to_string(),
        reading,
    }
}

fn yaml(v: &Value) -> Yaml {
    match v {
        Value::Null => Yaml::Null,
        Value::Bool(b) => Yaml::Bool(*b),
        Value::Number(_) => Yaml::Number,
        Value::String(s) => Yaml::Text(s.clone()),
        Value::Sequence(s) => Yaml::List(s.iter().map(yaml).collect()),
        Value::Mapping(m) => Yaml::Mapping(m.iter().map(|(k, v)| (yaml(k), yaml(v))).collect()),
        Value::Tagged(t) => Yaml::Tagged(Box::new(yaml(&t.value))),
    }
}

fn probe(text: &str) -> Result<Probe, String> {
    let doc: Value = serde_norway::from_str(text).map_err(|e| e.to_string())?;
    let lockfile_version = match doc.get("lockfileVersion") {
        None => None,
        Some(Value::String(s)) => Some(RawVersion::Str(s.clone())),
        Some(v) => Some(num(v.as_f64().ok_or("not a version")?)),
    };
    let patched_dependencies = match doc.get("patchedDependencies") {
        None | Some(Value::Null) => None,
        Some(v) => Some(yaml(v)),
    };
    Ok(Probe {
        lockfile_version,
        patched_dependencies,
    })
}

fn num(n: f64) -> RawVersion {
    RawVersion::Num {
        text: format!("{n}"),
        finite: n.is_finite(),
    }
}

fn entries(v: Option<&Value>) -> Vec<(String, &Value)> {
    match v {
        Some(Value::Mapping(m)) => m
            .iter()
            .map(|(k, v)| (k.as_str().unwrap().to_string(), v))
            .collect(),
        _ => Vec::new(),
    }
}

fn text_of(v: &Value) -> String {
    v.as_str().unwrap().to_string()
}

fn texts_under(v: Option<&Value>) -> Dict<String> {
    let mut d = Dict::new();
    for (k, v) in entries(v) {
        d.insert(k, text_of(v));
    }
    d
}

fn list(v: Option<&Value>) -> Option<Vec<String>> {
    v.and_then(Value::as_sequence)
        .map(|s| s.iter().map(text_of).collect())
}

fn flag(v: Option<&Value>, default: bool) -> bool {
    v.and_then(Value::as_bool).unwrap_or(default)
}

fn resolution(v: &Value) -> Resolution {
    let at = |k: &str| v.get(k).map(text_of);
    if let (None, Some(integrity)) = (at("tarball"), at("integrity")) {
        return Resolution::Integrity { integrity };
    }
    if let Some(tarball) = at("tarball") {
        return Resolution::Tarball {
            tarball,
            integrity: at("integrity"),
        };
    }
    if let (Some(repo), Some(commit)) = (at("repo"), at("commit")) {
        return Resolution::Git { repo, commit };
    }
    Resolution::Directory {
        directory: at("directory").unwrap(),
        kind: at("type").unwrap(),
    }
}

fn package(v: &Value) -> PackageMeta {
    PackageMeta {
        resolution: resolution(v.get("resolution").unwrap()),
        engines: texts_under(v.get("engines")),
        os: list(v.get("os")),
        cpu: list(v.get("cpu")),
        libc: list(v.get("libc")),
        has_bin: flag(v.get("hasBin"), false),
        deprecated: v.get("deprecated").map(text_of),
        peer_dependencies: texts_under(v.get("peerDependencies")),
        peer_dependencies_meta: Dict::new(),
        bundled_dependencies: list(v.get("bundledDependencies")).unwrap_or_default(),
    }
}

fn deps(v: Option<&Value>) -> Dict<ImporterDep> {
    let mut d = Dict::new();
    for (k, v) in entries(v) {
        d.insert(
            k,
            ImporterDep {
                specifier: text_of(v.get("specifier").unwrap()),
                version: text_of(v.get("version").unwrap()),
            },
        );
    }
    d
}

fn lockfile_body(text: &str) -> Result<Lockfile, String> {
    let doc: Value = serde_norway::from_str(text).map_err(|e| e.to_string())?;
    let settings = doc.get("settings");
    let setting = |k: &str| settings.and_then(|s| s.get(k));
    let mut importers = Dict::new();
    for (k, v) in entries(doc.get("importers")) {
        importers.insert(
            k,
            Importer {
                dependencies: deps(v.get("dependencies")),
                dev_dependencies: deps(v.get("devDependencies")),
                optional_dependencies: deps(v.get("optionalDependencies")),
            },
        );
    }
    let mut packages = Dict::new();
    for (k, v) in entries(doc.get("packages")) {
        packages.insert(k, package(v));
    }
    let mut snapshots = Dict::new();
    for (k, v) in entries(doc.get("snapshots")) {
        snapshots.insert(
            k,
            SnapshotEntry {
                dependencies: texts_under(v.get("dependencies")),
                optional_dependencies: texts_under(v.get("optionalDependencies")),
                optional: flag(v.get("optional"), false),
                transitive_peer_dependencies: list(v.get("transitivePeerDependencies"))
                    .unwrap_or_default(),
            },
        );
    }
    Ok(Lockfile {
        lockfile_version: String::new(),
        settings: Settings {
            auto_install_peers: flag(setting("autoInstallPeers"), true),
            exclude_links_from_lockfile: flag(setting("excludeLinksFromLockfile"), false),
        },
        importers,
        packages,
        snapshots,
    })
}

fn read_lockfile(text: &str, path: &str) -> Result<(Lockfile, Vec<LockWarning>), LockError> {
    parse_lockfile(text, path, probe(text), lockfile_body(text))
}

/// The complaint of a reader that knows no field.
fn reading(source: &str) -> Result<RawConfig, String> {
    match toml::from_str::<toml::Value>(source) {
        Ok(_) => Err("not a configuration".to_string()),
        Err(e) => Err(e.to_string()),
    }
}

fn read_config(source: &str) -> Result<Config, ConfigError> {
    Config::from_str(source, reading(source), "pudu.toml")
}

// --- debug ------------------------------------------------------------------

const LOCK: &str = r#"lockfileVersion: '9.0'

importers:

  .:
    dependencies:
      app:
        specifier: 1.0.0
        version: 1.0.0

packages:

  app@1.0.0:
    resolution: {integrity: sha512-app}

  '@esbuild/linux-x64@0.25.12':
    resolution: {integrity: sha512-lin}
    cpu: [x64]
    os: [linux]

  '@esbuild/darwin-arm64@0.25.12':
    resolution: {integrity: sha512-dar}
    cpu: [arm64]
    os: [darwin]

snapshots:

  app@1.0.0:
    optionalDependencies:
      '@esbuild/linux-x64': 0.25.12
      '@esbuild/darwin-arm64': 0.25.12

  '@esbuild/linux-x64@0.25.12':
    optional: true

  '@esbuild/darwin-arm64@0.25.12':
    optional: true
"#;

const CONFIG: &str = r#"lockfile_path   = "pnpm-lock.yaml"
third_party_dir = "third-party/js"

[platforms.linux-x64-gnu]
os   = "linux"
cpu  = "x64"
libc = "glibc"

[platforms.darwin-arm64]
os  = "darwin"
cpu = "arm64"
"#;

fn run(lock: &str) -> (serde_json::Value, Vec<LockWarning>) {
    let config = read_config(CONFIG).unwrap();
    let (lockfile, warnings) = read_lockfile(lock, "pnpm-lock.yaml").unwrap();
    let graph = Graph::build(&lockfile).unwrap();
    let (reports, _) = platforms(&graph, &config.platforms);
    (
        serde_json::from_str(&reports_text(&reports)).expect("stdout is JSON"),
        warnings,
    )
}

fn word(s: &str) -> serde_json::Value {
    serde_json::Value::String(s.to_string())
}

#[test]
fn prints_one_entry_per_configured_platform() {
    let (json, _) = run(LOCK);
    let p = json["platforms"]
        .as_object()
        .expect("platforms is an object");
    assert_eq!(p.len(), 2);
    assert!(p.contains_key("linux-x64-gnu"));
    assert!(p.contains_key("darwin-arm64"));
}

#[test]
fn each_platform_keeps_its_own_gated_package_and_prunes_the_other() {
    let (json, _) = run(LOCK);
    let lin = &json["platforms"]["linux-x64-gnu"];
    assert_eq!(lin["node_count"], 2);
    assert_eq!(
        lin["pruned"].as_array().unwrap(),
        &vec![word("@esbuild/darwin-arm64@0.25.12")]
    );

    let mac = &json["platforms"]["darwin-arm64"];
    assert_eq!(
        mac["pruned"].as_array().unwrap(),
        &vec![word("@esbuild/linux-x64@0.25.12")]
    );
}

#[test]
fn reports_the_platform_axes_and_generated_constraints() {
    let (json, _) = run(LOCK);
    let lin = &json["platforms"]["linux-x64-gnu"];
    assert_eq!(lin["os"], "linux");
    assert_eq!(lin["cpu"], "x64");
    assert_eq!(lin["libc"], "glibc");
    assert_eq!(
        lin["constraints"].as_array().unwrap(),
        &vec![
            word("prelude//cpu/constraints:x86_64"),
            word("prelude//os/constraints:linux"),
        ]
    );
    assert_eq!(lin["constraints_overridden"], false);

    let mac = &json["platforms"]["darwin-arm64"];
    assert!(mac["libc"].is_null(), "darwin configures no libc");
}

#[test]
fn an_excluded_optional_dependency_is_not_a_dropped_required_edge() {
    let (json, _) = run(LOCK);
    for name in ["linux-x64-gnu", "darwin-arm64"] {
        assert!(
            json["platforms"][name]["dropped_required_edges"]
                .as_array()
                .unwrap()
                .is_empty(),
            "{name}"
        );
    }
}

#[test]
fn stdout_is_pure_json_and_warnings_go_to_stderr() {
    let noisy_lock = LOCK.replacen(
        "lockfileVersion: '9.0'\n",
        "lockfileVersion: '9.0'\nfutureTopLevelKey: true\n",
        1,
    );
    let (json, warnings) = run(&noisy_lock);
    assert!(
        warnings.iter().any(|w| w.message().contains("futureTopLevelKey")),
        "expected the unknown-key warning: {warnings:?}"
    );
    let p = json["platforms"]
        .as_object()
        .expect("platforms is an object");
    assert_eq!(p.len(), 2);
}

#[test]
fn debug_platforms_output_is_byte_identical_across_runs() {
    assert_eq!(run(LOCK).0.to_string(), run(LOCK).0.to_string());
}

#[test]
fn a_v6_lockfile_exits_3() {
    let e = Failure::Lock(read_lockfile("lockfileVersion: '6.0'\n", "l").unwrap_err());
    assert_eq!(exit_code(&e).as_i32(), 3);
    let Failure::Lock(e) = e else { unreachable!() };
    let text = e.message();
    assert!(text.contains("6.0") && text.contains('9'), "{text}");
}

#[test]
fn a_malformed_yaml_lockfile_exits_3() {
    let e = read_lockfile("lockfileVersion: '9.0'\nimporters: {\n", "l").unwrap_err();
    assert_eq!(exit_code(&Failure::Lock(e)).as_i32(), 3);
}

#[test]
fn json_keys_follow_the_invented_vs_echoed_spelling_rule() {
    let (lockfile, _) = read_lockfile(LOCK, "l").unwrap();
    let text = print_graph(&lockfile).unwrap();
    let v: serde_json::Value = serde_json::from_str(&text).unwrap();

    assert!(v.get("lockfile_version").is_some());
    let nodes = v["nodes"].as_object().unwrap();
    let app = &nodes["app@1.0.0"];
    assert!(app.get("target_name").is_some(), "{app}");
    let edges = app["edges"].as_array().unwrap();
    assert!(
        edges.iter().all(|e| e.get("link_name").is_some()),
        "{edges:?}"
    );

    let settings = &v["settings"];
    assert!(settings.get("autoInstallPeers").is_some(), "{settings}");
    assert!(
        settings.get("excludeLinksFromLockfile").is_some(),
        "{settings}"
    );
    assert!(settings.get("auto_install_peers").is_none());

    let meta = &app["meta"];
    assert!(meta["resolution"].get("integrity").is_some(), "{meta}");
    assert!(meta.get("hasBin").is_some(), "{meta}");
    assert!(meta.get("has_bin").is_none());
    assert!(
        meta.get("os").is_some(),
        "os must be present even when null: {meta}"
    );
}

const CLIUI_LOCK: &str = r#"lockfileVersion: '9.0'

importers:

  .:
    dependencies:
      '@isaacs/cliui':
        specifier: ^8.0.2
        version: 8.0.2

packages:

  '@isaacs/cliui@8.0.2':
    resolution: {integrity: sha512-a}

  browserslist@4.24.0:
    resolution: {integrity: sha512-b}

  string-width@4.2.3:
    resolution: {integrity: sha512-c}

  string-width@5.1.2:
    resolution: {integrity: sha512-d}

  update-browserslist-db@1.1.1:
    resolution: {integrity: sha512-e}

snapshots:

  '@isaacs/cliui@8.0.2':
    dependencies:
      browserslist: 4.24.0
      string-width: 5.1.2
      string-width-cjs: string-width@4.2.3

  browserslist@4.24.0:
    dependencies:
      update-browserslist-db: 1.1.1

  string-width@4.2.3: {}

  string-width@5.1.2: {}

  update-browserslist-db@1.1.1:
    dependencies:
      browserslist: 4.24.0
"#;

fn printed(lock: &str) -> String {
    print_graph(&read_lockfile(lock, "l").unwrap().0).unwrap()
}

#[test]
fn aliased_edge_survives_into_the_output() {
    let v: serde_json::Value = serde_json::from_str(&printed(CLIUI_LOCK)).unwrap();
    let cliui = v["nodes"]
        .as_object()
        .unwrap()
        .iter()
        .find(|(k, _)| k.starts_with("@isaacs/cliui@"))
        .unwrap()
        .1;
    let edge = cliui["edges"]
        .as_array()
        .unwrap()
        .iter()
        .find(|e| e["link_name"] == "string-width-cjs")
        .expect("alias edge present");
    assert!(edge["target"].as_str().unwrap().starts_with("string-width@4"));
}

#[test]
fn cycles_reach_the_output() {
    let v: serde_json::Value = serde_json::from_str(&printed(CLIUI_LOCK)).unwrap();
    let cycles = v["cycles"].as_array().unwrap();
    assert_eq!(cycles.len(), 1);
    assert_eq!(
        cycles[0].as_array().unwrap(),
        &vec![word("browserslist@4.24.0"), word("update-browserslist-db@1.1.1")]
    );
}

#[test]
fn debug_print_graph_output_is_byte_identical_across_runs() {
    let a = printed(CLIUI_LOCK);
    let v: serde_json::Value = serde_json::from_str(&a).unwrap();
    assert_eq!(v["lockfile_version"], "9.0");
    assert_eq!(v["nodes"].as_object().unwrap().len(), 5);
    assert!(v["nodes"].as_object().unwrap().contains_key("@isaacs/cliui@8.0.2"));
    assert_eq!(a, printed(CLIUI_LOCK), "determinism is an invariant");
}

#[test]
fn stubbed_verbs_report_their_stage_and_exit_four() {
    let (verb, stage) = ("audit", "Phase 2");
    let e = unimplemented(verb, stage);
    let text = e.message();
    assert_eq!(exit_code(&Failure::Cli(e)).as_i32(), 4);
    assert!(text.contains("not implemented yet"), "{text}");
    assert!(text.contains(stage), "`{verb}` must name {stage}: {text}");
}

#[test]
fn a_bad_change_directory_is_a_usage_error() {
    let e = directory_error("/no/such/dir", "gone".to_string());
    assert!(e.message().contains("/no/such/dir"));
    assert_eq!(e.exit_code().as_i32(), 2);
}

// --- config check -----------------------------------------------------------

fn checked(source: &str) -> serde_json::Value {
    let text = match read_config(source) {
        Err(e) => envelope_text(&early_envelope(&e.message(), &e.causes())),
        Ok(config) => {
            let (errors, warnings) = config.validate();
            envelope_text(&envelope(&errors, &warnings))
        }
    };
    serde_json::from_str(&text).expect("valid json")
}

const TWO_ERRORS: &str = "lockfile_path=\"pnpm-lock.yaml\"\n[platforms.a]\nos=\"win32\"\ncpu=\"x64\"\nlibc=\"glibc\"\n";

#[test]
fn accepts_a_good_config() {
    let config = read_config(CONFIG).unwrap();
    assert!(config.validate().0.is_empty());
    let line = ok_line(&config.platforms);
    assert!(line.contains("2 platforms"), "{line}");
}

#[test]
fn reports_every_error_not_just_the_first() {
    let errors = read_config(TWO_ERRORS).unwrap().validate().0;
    let said: Vec<String> = errors.iter().map(|e| e.message()).collect();
    assert!(said.iter().any(|s| s.contains("windows")), "{said:?}");
    assert!(said.iter().any(|s| s.contains("libc")), "{said:?}");
}

#[test]
fn json_format_is_machine_readable() {
    assert_eq!(checked(CONFIG)["ok"], true);
}

#[test]
fn json_format_reports_errors_on_stdout_and_exits_nonzero() {
    let value = checked(TWO_ERRORS);
    assert_eq!(value["ok"], false, "{value}");
    let errors = value["errors"].as_array().expect("errors array");
    assert!(!errors.is_empty(), "{value}");
    let e = Failure::Cli(CliError::ConfigInvalid { count: errors.len() });
    assert_eq!(exit_code(&e).as_i32(), 3);
}

#[test]
fn missing_config_file_names_the_path() {
    let e = config_error("pudu.toml", "entity not found".to_string());
    assert_eq!(e.exit_code().as_i32(), 3);
    assert!(e.message().contains("pudu.toml"));
}

#[test]
fn json_format_reports_a_missing_config_as_json() {
    let e = config_error("pudu.toml", "entity not found".to_string());
    let text = envelope_text(&early_envelope(
        &e.message(),
        &vec!["entity not found".to_string()],
    ));
    let value: serde_json::Value = serde_json::from_str(&text).expect("valid json");
    assert_eq!(value["ok"], false, "{value}");
    let errors = value["errors"].as_array().expect("errors array");
    assert_eq!(errors.len(), 1, "{value}");
    assert!(errors[0].as_str().unwrap().contains("pudu.toml"), "{value}");
}

#[test]
fn json_format_reports_a_malformed_config_as_json() {
    let value = checked("lockfile_path = \n");
    assert_eq!(value["ok"], false, "{value}");
    let errors = value["errors"].as_array().expect("errors array");
    assert!(!errors.is_empty(), "{value}");
    assert!(
        errors[0].as_str().unwrap().contains("pudu.toml"),
        "the parse error must name the file: {value}"
    );
}

#[test]
fn a_sourceless_error_is_reported_once() {
    let value = checked(
        "lockfile_path=\"pnpm-lock.yaml\"\n[platforms.a]\nos=\"linux\"\ncpu=\"x64\"\n[fixups]\nregistry=\"file://\"\n",
    );
    let msg = "`[fixups].registry` value `file://` has no absolute path after `file://`";
    let errors = value["errors"].as_array().expect("errors array");
    assert_eq!(errors.len(), 1, "{value}");
    assert_eq!(errors[0].as_str().unwrap(), msg, "{value}");
}

#[test]
fn warnings_render_as_diagnostics() {
    let single = "lockfile_path=\"pnpm-lock.yaml\"\n[platforms.only]\nos=\"linux\"\ncpu=\"x64\"\nlibc=\"glibc\"\n";
    let (errors, warnings) = read_config(single).unwrap().validate();
    assert!(errors.is_empty(), "{errors:?}");
    let said = warnings[0].message();
    assert!(said.contains("`only`"), "the warning names the platform: {said}");
    assert!(said.contains("only one platform is configured"), "{said}");
}

#[test]
fn a_single_error_gets_no_count_summary_but_several_do() {
    let one = read_config(
        "lockfile_path=\"pnpm-lock.yaml\"\n[platforms.a]\nos=\"darwin\"\ncpu=\"arm64\"\nlibc=\"glibc\"\n[platforms.b]\nos=\"linux\"\ncpu=\"x64\"\n",
    )
    .unwrap()
    .validate()
    .0;
    assert_eq!(one.len(), 1, "{one:?}");
    assert_eq!(count_line(one.len()), None, "a lone error needs no summary");

    let many = read_config(
        "lockfile_path=\"pnpm-lock.yaml\"\n[platforms.a]\nos=\"darwin\"\ncpu=\"arm64\"\nlibc=\"glibc\"\n[platforms.b]\nos=\"win32\"\ncpu=\"x64\"\n",
    )
    .unwrap()
    .validate()
    .0;
    assert_eq!(
        count_line(many.len()),
        Some("2 errors in pudu.toml".to_string())
    );
}

#[test]
fn a_missing_config_is_not_reported_as_a_count_of_errors_in_it() {
    let e = config_error("pudu.toml", "entity not found".to_string());
    assert!(e.message().contains("cannot read"));
    assert!(!e.message().contains("error(s) in pudu.toml"));
    assert!(!e.already_reported());
}

// --- init -------------------------------------------------------------------

fn at_root() -> Option<Found> {
    Some(Found {
        lockfile_rel: "pnpm-lock.yaml".to_string(),
        project_rel: None,
    })
}

fn init(found: Option<Found>, ws: Option<&str>, existing: Option<&str>, force: bool) -> Scaffold {
    scaffold(
        &found,
        ws.map(workspace).as_ref(),
        existing,
        force,
        Os::Linux,
        Cpu::X64,
    )
    .unwrap()
}

#[test]
fn writes_the_project_skeleton() {
    let s = init(at_root(), None, None, false);
    assert!(s.config.contains("lockfile_path   = \"pnpm-lock.yaml\""));
    assert!(s.config.contains("node_toolchain = \"toolchains//:node\""));
    assert!(s.toolchains.is_some());
}

#[test]
fn the_generated_config_passes_config_check() {
    let s = init(at_root(), None, None, false);
    let (errors, _) = read_config(&s.config).unwrap().validate();
    assert!(errors.is_empty(), "{errors:?}");
}

#[test]
fn derives_platforms_from_supported_architectures() {
    let ws = "supportedArchitectures:\n  os: [linux]\n  cpu: [x64, arm64]\n";
    let cfg = init(at_root(), Some(ws), None, false).config;
    assert!(cfg.contains("[platforms.linux-x64-gnu]"), "{cfg}");
    assert!(cfg.contains("[platforms.linux-arm64-gnu]"), "{cfg}");
    assert!(!cfg.contains("darwin"), "{cfg}");
}

#[test]
fn refuses_to_overwrite_without_force() {
    assert_eq!(may_scaffold("pudu.toml", false, false), Ok(()));
    let e = may_scaffold("pudu.toml", true, false).unwrap_err();
    assert_eq!(
        e,
        CliError::ConfigExists {
            path: "pudu.toml".to_string()
        }
    );
    assert_eq!(e.exit_code().as_i32(), 2);
    assert!(e.message().contains("--force"));
}

#[test]
fn force_overwrites() {
    assert_eq!(may_scaffold("pudu.toml", true, true), Ok(()));
    assert_eq!(may_scaffold("pudu.toml", false, true), Ok(()));
}

#[test]
fn force_never_overwrites_hand_edited_third_party_js_contents() {
    assert_eq!(
        third_party_writes(&vec![true, false, true, false]),
        vec![false, true, false, true]
    );
}

#[test]
fn does_not_claim_to_write_third_party_js_when_everything_was_skipped() {
    assert!(!third_party_writes(&vec![true, true, true, true]).contains(&true));
    assert!(third_party_writes(&vec![]).is_empty());
}

#[test]
fn toolchain_append_is_idempotent() {
    let first = init(at_root(), None, None, false).toolchains.unwrap();
    let second = init(at_root(), None, Some(&first), true);
    assert_eq!(second.toolchains, None, "toolchains/BUCK must be stable across runs");
}

#[test]
fn preserves_an_existing_toolchains_buck() {
    let original = "system_python_toolchain(name = \"python\")\n";
    let text = init(at_root(), None, Some(original), false).toolchains.unwrap();
    assert!(
        text.starts_with(original),
        "existing content must be preserved: {text}"
    );
    assert!(text.contains("system_node_toolchain"), "{text}");
}

#[test]
fn never_overwrites_a_user_node_toolchain() {
    let original = "system_node_toolchain(name = \"node\", node = \"/opt/node/bin/node\")\n";
    for force in [false, true] {
        let s = init(at_root(), None, Some(original), force);
        assert_eq!(s.toolchains, None, "a user's own node toolchain must be untouched");
    }
}

#[test]
fn undetected_project_writes_a_todo_template() {
    let cfg = init(None, None, None, false).config;
    assert!(cfg.contains("TODO"), "{cfg}");
    assert!(
        cfg.contains("lockfile_path   = \"TODO: path to your pnpm-lock.yaml\""),
        "{cfg}"
    );
}

fn detected_from(dirs: &[&str], holder: &str) -> Option<Found> {
    let walk: Vec<DirProbe> = dirs
        .iter()
        .map(|d| DirProbe {
            dir: d.to_string(),
            has_lockfile: *d == holder,
            has_workspace_yaml: false,
        })
        .collect();
    detect(&walk).map(|d| locate(&d, dirs[0]))
}

#[test]
fn relative_path_argument_detects_lockfile_above_it() {
    let found = detected_from(&["/d/proj/sub", "/d/proj", "/d", "/"], "/d");
    let cfg = init(found, None, None, false).config;
    assert!(
        cfg.contains("lockfile_path   = \"../../pnpm-lock.yaml\""),
        "{cfg}"
    );
}

#[test]
fn non_force_run_leaves_a_stale_managed_block_alone() {
    let stale_block = "# --- begin pudu-managed (do not edit inside this block) ---\n\
         load(\"root//third-party/js:toolchains.bzl\", \"system_node_toolchain\")\n\
         system_node_toolchain(name = \"node\", visibility = [\"//:x\"])\n\
         # --- end pudu-managed ---\n";
    let s = init(at_root(), None, Some(stale_block), false);
    assert_eq!(
        s.toolchains, None,
        "a non-force run must not refresh a stale managed block"
    );
    assert_eq!(s.outcome, AppendOutcome::StaleManaged);
}

#[test]
fn records_an_existing_user_toolchain_under_its_real_name() {
    let s = init(
        at_root(),
        None,
        Some("system_node_toolchain(name = \"my_node\", node = \"/opt/node/bin/node\")\n"),
        false,
    );
    let cfg = &s.config;
    assert!(
        cfg.contains("node_toolchain = \"toolchains//:my_node\""),
        "the existing toolchain must be recorded: {cfg}"
    );
    assert!(
        !cfg.contains("toolchains//:node\""),
        "must not record the default label: {cfg}"
    );
    let said = outcome_warnings(&s.outcome, "toolchains/BUCK", &s.node_toolchain);
    assert!(said[0].message().contains("my_node"), "{said:?}");
    let (errors, _) = read_config(cfg).unwrap().validate();
    assert!(errors.is_empty(), "{errors:?}");
}

#[test]
fn unparseable_toolchain_name_falls_back_and_says_so() {
    let s = init(
        at_root(),
        None,
        Some("system_node_toolchain(**MY_KWARGS)\n"),
        false,
    );
    let cfg = &s.config;
    assert!(
        cfg.contains("node_toolchain = \"toolchains//:node\""),
        "{cfg}"
    );
    let said = outcome_warnings(&s.outcome, "toolchains/BUCK", &s.node_toolchain);
    assert!(
        said.iter()
            .any(|w| w.message().contains("could not read the target name")),
        "the fallback must be announced: {said:?}"
    );
}

#[test]
fn load_label_is_relative_to_the_lockfile_directory() {
    let found = detected_from(&["/d/apps/web", "/d/apps", "/d", "/"], "/d");
    let s = init(found, None, None, false);
    let buck = s.toolchains.unwrap();
    assert!(
        buck.contains("load(\"root//apps/web/third-party/js:toolchains.bzl\""),
        "the load label must resolve to the real directory: {buck}"
    );
    assert_eq!(s.prefix, Some("apps/web".to_string()));
}

#[test]
fn load_label_has_no_prefix_at_the_lockfile_directory() {
    let found = detected_from(&["/d", "/"], "/d");
    let s = init(found, None, None, false);
    let buck = s.toolchains.unwrap();
    assert!(
        buck.contains("load(\"root//third-party/js:toolchains.bzl\""),
        "{buck}"
    );
    assert_eq!(s.prefix, None);
}

#[test]
fn no_usable_platforms_exits_three_and_surfaces_the_warnings() {
    let e = scaffold(
        &at_root(),
        Some(&workspace("supportedArchitectures:\n  os: [win32, solaris]\n  cpu: [x64]\n")),
        None,
        false,
        Os::Linux,
        Cpu::X64,
    )
    .unwrap_err();
    assert!(e.message().contains("no supported platforms"), "{e:?}");
    let text = format!("{e:?}");
    assert!(
        text.contains("Win32Skipped"),
        "the win32 skip must survive onto the error: {text}"
    );
    assert!(
        text.contains("solaris"),
        "the unknown-os warning must survive onto the error: {text}"
    );
    assert_eq!(exit_code(&Failure::Derive(e)).as_i32(), 3);
}

#[test]
fn success_path_warnings_render_as_diagnostics() {
    let ws = "supportedArchitectures:\n  os: [linux, win32]\n  cpu: [x64]\n";
    let s = init(at_root(), Some(ws), None, false);
    assert_eq!(s.derived.warnings.len(), 1);
    assert!(s.derived.warnings[0].message().contains("win32"));
    assert!(TOOLCHAINS_BZL.starts_with("##\n## @generated by pudu init. Safe to edit.\n"));
}

// --- buckify ----------------------------------------------------------------

fn tarball_rooted(root: &str, files: &[(&str, &str)]) -> Vec<u8> {
    let mut ar = tar::Builder::new(Vec::new());
    for (path, body) in files {
        let mut h = tar::Header::new_gnu();
        h.set_size(body.len() as u64);
        h.set_mode(0o644);
        h.set_cksum();
        ar.append_data(&mut h, format!("{root}/{path}"), body.as_bytes())
            .unwrap();
    }
    let bytes = ar.into_inner().unwrap();
    let mut gz = flate2::write::GzEncoder::new(Vec::new(), flate2::Compression::default());
    gz.write_all(&bytes).unwrap();
    gz.finish().unwrap()
}

fn integrity_of(bytes: &[u8]) -> String {
    format!(
        "sha512-{}",
        base64::engine::general_purpose::STANDARD.encode(sha512_digest(bytes))
    )
}

fn served(key: &str) -> Vec<u8> {
    match key {
        "left-pad@1.3.0" => {
            tarball_rooted("package", &[("package.json", r#"{"name":"left-pad"}"#)])
        }
        "tool@2.0.0" => tarball_rooted(
            "package",
            &[
                (
                    "package.json",
                    r#"{"name":"tool","bin":"cli.js","scripts":{"install":"node x"}}"#,
                ),
                ("cli.js", "#!/usr/bin/env node\n"),
            ],
        ),
        "@types/node@22.20.0" => tarball_rooted(
            "node v22.20",
            &[("package.json", r#"{"name":"@types/node"}"#)],
        ),
        _ => tarball_rooted("package", &[("package.json", r#"{"name":"mac-only"}"#)]),
    }
}

fn fixture() -> (Config, Prepared) {
    let config = read_config(CONFIG).unwrap();
    let lock = format!(
        "lockfileVersion: '9.0'\n\n\
         importers:\n\n  .:\n    dependencies:\n\
         \x20     left-pad:\n        specifier: 1.3.0\n        version: 1.3.0\n\
         \x20     tool:\n        specifier: 2.0.0\n        version: 2.0.0\n\
         \x20     '@types/node':\n        specifier: 22.20.0\n        version: 22.20.0\n\
         \x20   optionalDependencies:\n\
         \x20     mac-only:\n        specifier: 3.0.0\n        version: 3.0.0\n\n\
         packages:\n\n\
         \x20 left-pad@1.3.0:\n    resolution: {{integrity: {}}}\n\n\
         \x20 tool@2.0.0:\n    resolution: {{integrity: {}}}\n    hasBin: true\n\n\
         \x20 '@types/node@22.20.0':\n    resolution: {{integrity: {}}}\n\n\
         \x20 mac-only@3.0.0:\n    resolution: {{integrity: {}}}\n    os: [darwin]\n\n\
         snapshots:\n\n  left-pad@1.3.0: {{}}\n\n  tool@2.0.0: {{}}\n\n\
         \x20 '@types/node@22.20.0': {{}}\n\n\
         \x20 mac-only@3.0.0: {{}}\n",
        integrity_of(&served("left-pad@1.3.0")),
        integrity_of(&served("tool@2.0.0")),
        integrity_of(&served("@types/node@22.20.0")),
        integrity_of(&served("mac-only@3.0.0")),
    );
    let (lockfile, _) = read_lockfile(&lock, "pnpm-lock.yaml").unwrap();
    let prepared = prepare(&lockfile, &config.platforms, &config.registry).unwrap();
    (config, prepared)
}

fn vendored(prepared: &Prepared) -> Loaded {
    let (kept, todo) = split_requests(&prepared.plan.requests, &Dict::new());
    let results = todo
        .iter()
        .map(|req| (req.key.clone(), settle(req, &served(&req.key), true).0))
        .collect();
    let collected = collect(kept, results, &prepared.plan);
    assert!(collected.failures.is_empty(), "{:?}", collected.failures);
    Loaded::Present(PackageTable {
        entries: collected.entries,
    })
}

fn buckify() -> Generated {
    let (config, prepared) = fixture();
    let loaded = vendored(&prepared);
    produce(&prepared, &loaded, &config.platforms, &config.third_party_dir).unwrap()
}

#[test]
fn buckify_writes_three_files_and_a_second_run_is_byte_identical() {
    assert_eq!(buckify(), buckify(), "buckify must be deterministic");
}

#[test]
fn the_space_rooted_package_emits_its_real_root_and_no_strip_prefix() {
    let files = buckify();
    let buck = &files.buck;
    assert!(buck.contains(r#"name = "@types+node@22.20.0","#), "{buck}");
    assert!(buck.contains(r#"root = "node v22.20","#), "{buck}");
    assert!(!files.bzl.contains("strip_prefix ="));
}

#[test]
fn a_package_surviving_on_only_one_platform_still_gets_a_target() {
    assert!(buckify().buck.contains(r#"name = "mac-only@3.0.0","#));
}

#[test]
fn buckify_without_a_package_table_fails_before_writing_anything() {
    let (config, prepared) = fixture();
    let e = produce(
        &prepared,
        &Loaded::Absent,
        &config.platforms,
        &config.third_party_dir,
    )
    .unwrap_err();
    assert_eq!(exit_code(&e).as_i32(), 5);
}

fn fresh(files: &Generated) -> OnDisk {
    OnDisk {
        buck: Some(files.buck.clone()),
        bzl: Some(files.bzl.clone()),
        config: Some(files.config.clone()),
    }
}

#[test]
fn check_passes_on_fresh_output_and_fails_after_an_edit() {
    let files = buckify();
    let mut disk = fresh(&files);
    assert_eq!(files.check(&disk, "/p/third-party/js"), Ok(()));
    disk.buck = Some("# hand-edited\n".to_string());
    let e = files.check(&disk, "/p/third-party/js").unwrap_err();
    assert!(
        e.message().contains("/p/third-party/js/BUCK"),
        "the diagnostic must name the file that differs: {e:?}"
    );
    assert_eq!(exit_code(&Failure::Buck(e)), ExitCode::Stale);
}

#[test]
fn check_fails_when_a_generated_file_is_missing_entirely() {
    let files = buckify();
    let mut disk = fresh(&files);
    disk.config = None;
    let e = files.check(&disk, "/p/third-party/js").unwrap_err();
    assert_eq!(exit_code(&Failure::Buck(e)).as_i32(), 5);
}

#[test]
fn buckify_replaces_inits_placeholder_buck() {
    let files = buckify();
    let mut disk = fresh(&files);
    disk.buck = Some("# Generated by pudu. Run: pudu buckify\n".to_string());
    assert!(files.check(&disk, "d").is_err());
    assert!(files.buck.contains("npm_package("));
}

#[test]
fn the_generated_files_carry_the_generated_banner() {
    let files = buckify();
    for (name, text) in [
        ("BUCK", &files.buck),
        ("pudu.bzl", &files.bzl),
        ("config/BUCK", &files.config),
    ] {
        assert!(
            text.starts_with("##\n## @generated by pudu\n## Do not edit by hand.\n##\n"),
            "{name} must open with the generated banner"
        );
    }
}

#[test]
fn a_lockfile_with_no_packages_emits_an_empty_buck() {
    let config = read_config(CONFIG).unwrap();
    let (lockfile, _) = read_lockfile("lockfileVersion: '9.0'\n", "l").unwrap();
    let prepared = prepare(&lockfile, &config.platforms, &config.registry).unwrap();
    let files = produce(
        &prepared,
        &Loaded::Absent,
        &config.platforms,
        &config.third_party_dir,
    )
    .unwrap();
    let buck = &files.buck;
    assert!(!buck.contains("npm_package("), "{buck}");
    assert!(buck.starts_with("##\n## @generated by pudu\n"));
}

#[test]
fn each_peer_instance_gets_its_own_target() {
    let config = read_config(CONFIG).unwrap();
    let lock = format!(
        "lockfileVersion: '9.0'\n\n\
         importers:\n\n  .:\n    dependencies:\n\
         \x20     tool:\n        specifier: 2.0.0\n        version: 2.0.0(left-pad@1.3.0)\n\n\
         packages:\n\n\
         \x20 left-pad@1.3.0:\n    resolution: {{integrity: {}}}\n\n\
         \x20 tool@2.0.0:\n    resolution: {{integrity: {}}}\n    hasBin: true\n\n\
         snapshots:\n\n  left-pad@1.3.0: {{}}\n\n\
         \x20 tool@2.0.0(left-pad@1.3.0):\n    dependencies:\n      left-pad: 1.3.0\n",
        integrity_of(&served("left-pad@1.3.0")),
        integrity_of(&served("tool@2.0.0")),
    );
    let (lockfile, _) = read_lockfile(&lock, "pnpm-lock.yaml").unwrap();
    let prepared = prepare(&lockfile, &config.platforms, &config.registry).unwrap();
    let loaded = vendored(&prepared);
    let files = produce(
        &prepared,
        &loaded,
        &config.platforms,
        &config.third_party_dir,
    )
    .unwrap();
    let buck = &files.buck;
    assert!(buck.contains("name = \"tool@2.0.0_left-pad@1.3.0\","), "{buck}");
    assert!(
        buck.contains(":tool@2.0.0_left-pad@1.3.0[root]\""),
        "{buck}"
    );
    assert!(
        buck.contains("\".bin/tool\": \"../.pnpm/tool@2.0.0_left-pad@1.3.0/node_modules/tool/cli.js\""),
        "{buck}"
    );
}
