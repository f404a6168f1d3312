//! Reading lockfiles.

use pudu::dict::Dict;
use pudu::error::{LockError, LockWarning};
use pudu::lock::types::{
    Importer, ImporterDep, Lockfile, PackageMeta, Resolution, Settings, SnapshotEntry,
};
use pudu::lock::{parse_lockfile, Probe, RawVersion};
use pudu::yaml::Yaml;
use serde_norway::Value;

fn yaml(v: &Value) -> Yaml {
    match v {
        Value::Null => Yaml::Null,
        Value::Bool(b) => Yaml::Bool(*b),
        Value::Number(_) => Yaml::Number,
        Value::String(s) => Yaml::Text(s.clone()),
        Value::Sequence(s) => Yaml::List(s.iter().map(yaml).collect()),
        Value::Mapping(m) => Yaml::Mapping(m.iter().map(|(k, v)| (yaml(k), yaml(v))).collect()),
        Value::Tagged(t) => Yaml::Tagged(Box::new(yaml(&t.value))),
    }
}

fn probe(text: &str) -> Result<Probe, String> {
    let doc: Value = serde_norway::from_str(text).map_err(|e| e.to_string())?;
    let lockfile_version = match doc.get("lockfileVersion") {
        None => None,
        Some(Value::String(s)) => Some(RawVersion::Str(s.clone())),
        Some(v) => Some(num(v.as_f64().ok_or("not a version")?)),
    };
    let patched_dependencies = match doc.get("patchedDependencies") {
        None | Some(Value::Null) => None,
        Some(v) => Some(yaml(v)),
    };
    Ok(Probe {
        lockfile_version,
        patched_dependencies,
    })
}

fn num(n: f64) -> RawVersion {
    RawVersion::Num {
        text: format!("{n}"),
        finite: n.is_finite(),
    }
}

fn entries(v: Option<&Value>) -> Vec<(String, &Value)> {
    match v {
        Some(Value::Mapping(m)) => m
            .iter()
            .map(|(k, v)| (k.as_str().unwrap().to_string(), v))
            .collect(),
        _ => Vec::new(),
    }
}

fn text_of(v: &Value) -> String {
    v.as_str().unwrap().to_string()
}

fn texts_under(v: Option<&Value>) -> Dict<String> {
    let mut d = Dict::new();
    for (k, v) in entries(v) {
        d.insert(k, text_of(v));
    }
    d
}

fn list(v: Option<&Value>) -> Option<Vec<String>> {
    v.and_then(Value::as_sequence)
        .map(|s| s.iter().map(text_of).collect())
}

fn flag(v: Option<&Value>, default: bool) -> bool {
    v.and_then(Value::as_bool).unwrap_or(default)
}

fn resolution(v: &Value) -> Resolution {
    let at = |k: &str| v.get(k).map(text_of);
    if let (None, Some(integrity)) = (at("tarball"), at("integrity")) {
        return Resolution::Integrity { integrity };
    }
    if let Some(tarball) = at("tarball") {
        return Resolution::Tarball {
            tarball,
            integrity: at("integrity"),
        };
    }
    if let (Some(repo), Some(commit)) = (at("repo"), at("commit")) {
        return Resolution::Git { repo, commit };
    }
    Resolution::Directory {
        directory: at("directory").unwrap(),
        kind: at("type").unwrap(),
    }
}

fn package(v: &Value) -> PackageMeta {
    PackageMeta {
        resolution: resolution(v.get("resolution").unwrap()),
        engines: texts_under(v.get("engines")),
        os: list(v.get("os")),
        cpu: list(v.get("cpu")),
        libc: list(v.get("libc")),
        has_bin: flag(v.get("hasBin"), false),
        deprecated: v.get("deprecated").map(text_of),
        peer_dependencies: texts_under(v.get("peerDependencies")),
        peer_dependencies_meta: Dict::new(),
        bundled_dependencies: list(v.get("bundledDependencies")).unwrap_or_default(),
    }
}

fn deps(v: Option<&Value>) -> Dict<ImporterDep> {
    let mut d = Dict::new();
    for (k, v) in entries(v) {
        d.insert(
            k,
            ImporterDep {
                specifier: text_of(v.get("specifier").unwrap()),
                version: text_of(v.get("version").unwrap()),
            },
        );
    }
    d
}

fn lockfile_body(text: &str) -> Result<Lockfile, String> {
    let doc: Value = serde_norway::from_str(text).map_err(|e| e.to_string())?;
    let settings = doc.get("settings");
    let setting = |k: &str| settings.and_then(|s| s.get(k));
    let mut importers = Dict::new();
    for (k, v) in entries(doc.get("importers")) {
        importers.insert(
            k,
            Importer {
                dependencies: deps(v.get("dependencies")),
                dev_dependencies: deps(v.get("devDependencies")),
                optional_dependencies: deps(v.get("optionalDependencies")),
            },
        );
    }
    let mut packages = Dict::new();
    for (k, v) in entries(doc.get("packages")) {
        packages.insert(k, package(v));
    }
    let mut snapshots = Dict::new();
    for (k, v) in entries(doc.get("snapshots")) {
        snapshots.insert(
            k,
            SnapshotEntry {
                dependencies: texts_under(v.get("dependencies")),
                optional_dependencies: texts_under(v.get("optionalDependencies")),
                optional: flag(v.get("optional"), false),
                transitive_peer_dependencies: list(v.get("transitivePeerDependencies"))
                    .unwrap_or_default(),
            },
        );
    }
    Ok(Lockfile {
        lockfile_version: String::new(),
        settings: Settings {
            auto_install_peers: flag(setting("autoInstallPeers"), true),
            exclude_links_from_lockfile: flag(setting("excludeLinksFromLockfile"), false),
        },
        importers,
        packages,
        snapshots,
    })
}

fn read_lockfile(text: &str, path: &str) -> Result<(Lockfile, Vec<LockWarning>), LockError> {
    parse_lockfile(text, path, probe(text), lockfile_body(text))
}

fn parse(text: &str) -> Result<(Lockfile, Vec<LockWarning>), LockError> {
    read_lockfile(text, "/repo/pnpm-lock.yaml")
}

const MINIMAL: &str = "lockfileVersion: '9.0'\nimporters:\n  .:\n    dependencies: {}\n";

#[test]
fn accepts_quoted_and_unquoted_version() {
    assert!(parse(MINIMAL).is_ok());
    assert!(parse("lockfileVersion: 9.0\nimporters: {}\n").is_ok());
}

#[test]
fn parsed_lockfile_reports_the_version_it_observed() {
    let (quoted, _) = parse(MINIMAL).unwrap();
    assert_eq!(quoted.lockfile_version, "9.0");

    let (bare, _) = parse("lockfileVersion: 9.0\nimporters: {}\n").unwrap();
    assert_eq!(bare.lockfile_version, "9.0");
}

#[test]
fn a_bare_numeric_version_is_not_truncated_to_one_decimal() {
    assert_eq!(num(9.12).normalize(), "9.12");
}

#[test]
fn a_whole_number_bare_version_keeps_its_decimal_point() {
    assert_eq!(num(9.0).normalize(), "9.0");
}

#[test]
fn a_non_finite_bare_version_is_not_given_a_fabricated_decimal_point() {
    assert_eq!(num(f64::NAN).normalize(), "NaN");
    assert_eq!(num(f64::INFINITY).normalize(), "inf");
    assert_eq!(num(f64::NEG_INFINITY).normalize(), "-inf");
}

#[test]
fn a_lockfile_with_a_non_finite_version_is_rejected_without_a_fabricated_version_string() {
    for (src_version, must_not_contain) in [(".nan", "NaN.0"), (".inf", "inf.0")] {
        let src = format!("lockfileVersion: {src_version}\nimporters: {{}}\n");
        let err = parse(&src).expect_err("a non-finite version must be rejected");
        let msg = err.message();
        assert!(
            !msg.contains(must_not_contain),
            "must not name a version string absent from the file: {msg}"
        );
    }
}

#[test]
fn a_near_miss_bare_version_is_not_rounded_into_the_supported_one() {
    for near in ["8.96", "9.04", "9.0499"] {
        let src = format!("lockfileVersion: {near}\nimporters: {{}}\n");
        let err = parse(&src).expect_err("a near-miss version must not be accepted as 9.0");
        let msg = err.message();
        assert!(
            msg.contains(near),
            "{near} must be rejected and named, not rounded to 9.0: {msg}"
        );
    }
}

#[test]
fn an_unsupported_bare_numeric_version_names_itself_precisely() {
    let err = parse("lockfileVersion: 9.12\nimporters: {}\n").unwrap_err();
    let msg = err.message();
    assert!(
        msg.contains("9.12"),
        "must name the version actually found, not a truncated one: {msg}"
    );
}

#[test]
fn rejects_v6_naming_version_and_upgrade_path() {
    let err = parse("lockfileVersion: '6.0'\nimporters: {}\n").unwrap_err();
    let msg = err.message();
    assert!(msg.contains("6.0"), "must name the version found: {msg}");
    assert!(msg.contains('9'), "must name the supported version: {msg}");
}

#[test]
fn rejects_absent_version_as_absent() {
    let err = parse("importers: {}\n").unwrap_err();
    assert!(err.message().contains("absent"), "{err:?}");
}

#[test]
fn empty_or_absent_patched_dependencies_is_tolerated() {
    let empty = format!("{MINIMAL}patchedDependencies: {{}}\n");
    assert!(parse(&empty).is_ok(), "empty mapping must not be an error");

    let null = format!("{MINIMAL}patchedDependencies:\n");
    assert!(parse(&null).is_ok(), "null value must not be an error");
}

#[test]
fn patched_dependencies_is_an_error() {
    let text = format!(
        "{MINIMAL}patchedDependencies:\n  foo@1.0.0:\n    hash: abc\n    path: patches/foo.patch\n"
    );
    let err = parse(&text).unwrap_err();
    assert!(matches!(err, LockError::PatchedDependencies));
}

#[test]
fn excluded_links_is_an_error() {
    let text = format!("{MINIMAL}settings:\n  excludeLinksFromLockfile: true\n");
    let err = parse(&text).unwrap_err();
    assert!(matches!(err, LockError::ExcludedLinks));
}

#[test]
fn catalogs_and_overrides_are_tolerated_silently() {
    let text = format!(
        "{MINIMAL}catalogs:\n  default:\n    react:\n      specifier: ^18\n      version: 18.3.1\noverrides:\n  foo: 1.0.0\n"
    );
    let (_, warnings) = parse(&text).expect("must parse");
    assert!(warnings.is_empty(), "must not warn: {warnings:?}");
}

#[test]
fn unknown_top_level_key_warns_and_continues() {
    let text = format!("{MINIMAL}someFutureKey: 1\n");
    let (_, warnings) = parse(&text).expect("must still parse");
    assert!(
        warnings.iter().any(
            |w| matches!(w, LockWarning::UnknownTopLevelKey { key } if key == "someFutureKey")
        ),
        "{warnings:?}"
    );
}

#[test]
fn deprecated_package_warns_naming_the_key() {
    let text = format!(
        "{MINIMAL}packages:\n  glob@10.4.5:\n    resolution: {{integrity: sha512-x}}\n    deprecated: no longer supported\n"
    );
    let (_, warnings) = parse(&text).unwrap();
    assert!(
        warnings.iter().any(
            |w| matches!(w, LockWarning::DeprecatedPackage { key, .. } if key == "glob@10.4.5")
        ),
        "{warnings:?}"
    );
}

#[test]
fn settings_default_when_absent() {
    let (lf, _) = parse(MINIMAL).unwrap();
    assert!(lf.settings.auto_install_peers, "defaults to true");
    assert!(!lf.settings.exclude_links_from_lockfile);
}

#[test]
fn malformed_yaml_is_a_yaml_error() {
    let err = parse("lockfileVersion: '9.0'\nimporters: {\n").unwrap_err();
    assert!(
        matches!(err, LockError::Yaml { .. }),
        "expected LockError::Yaml, got {err:?}"
    );
    let msg = err.message();
    assert!(msg.contains("pnpm-lock.yaml"), "must name the file: {msg}");
}
