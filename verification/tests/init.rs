//! Deriving platforms from a workspace file.

use pudu::cli::init::{derive_platforms, platforms_in, Workspace};
use pudu::config::Platform;
use pudu::dict::Dict;
use pudu::error::{DeriveError, DeriveWarning};
use pudu::platform::{Cpu, Libc, Os};
use pudu::yaml::Yaml;
use serde::de::{Deserializer, Error, IgnoredAny, MapAccess, Visitor};
use serde_norway::Value;

/// Finds the block of a workspace file and skips everything else.
struct BlockVisitor;

impl<'de> Visitor<'de> for BlockVisitor {
    type Value = Option<Value>;

    fn expecting(&self, f: &mut std::fmt::Formatter<'_>) -> std::fmt::Result {
        f.write_str("struct WorkspaceYaml")
    }

    fn visit_map<A: MapAccess<'de>>(self, mut map: A) -> Result<Option<Value>, A::Error> {
        let mut block = None;
        while let Some(name) = map.next_key::<String>()? {
            if name != "supportedArchitectures" {
                map.next_value::<IgnoredAny>()?;
            } else if block.is_some() {
                return Err(A::Error::duplicate_field("supportedArchitectures"));
            } else {
                block = Some(map.next_value::<Option<Value>>()?);
            }
        }
        Ok(block.flatten())
    }
}

fn yaml_value(v: Value) -> Yaml {
    match v {
        Value::Null => Yaml::Null,
        Value::Bool(b) => Yaml::Bool(b),
        Value::Number(_) => Yaml::Number,
        Value::String(s) => Yaml::Text(s),
        Value::Sequence(s) => Yaml::List(s.into_iter().map(yaml_value).collect()),
        Value::Mapping(m) => Yaml::Mapping(
            m.into_iter()
                .map(|(k, v)| (yaml_value(k), yaml_value(v)))
                .collect(),
        ),
        Value::Tagged(t) => Yaml::Tagged(Box::new(yaml_value(t.value))),
    }
}

fn workspace(text: &str) -> Workspace {
    let reading = serde_norway::Deserializer::from_str(text)
        .deserialize_struct("WorkspaceYaml", &["supportedArchitectures"], BlockVisitor)
        .map(|block| block.map(yaml_value))
        .map_err(|e| e.to_string());
    Workspace {
        text: text.to_string(),
        reading,
    }
}

fn keys(d: &Dict<Platform>) -> Vec<&str> {
    (0..d.len()).map(|i| d.key(i).as_str()).collect()
}

#[test]
fn default_platform_set_when_no_workspace_yaml() {
    let d = derive_platforms(None, Os::Linux, Cpu::X64).unwrap();
    let names = keys(&d.platforms);
    assert_eq!(names, ["darwin-arm64", "linux-arm64-gnu", "linux-x64-gnu"]);
    assert!(d.warnings.is_empty());
}

#[test]
fn expands_the_os_cpu_cross_product() {
    let yaml = "supportedArchitectures:\n  os: [linux, darwin]\n  cpu: [x64, arm64]\n";
    let d = derive_platforms(Some(&workspace(yaml)), Os::Linux, Cpu::X64).unwrap();
    let names = keys(&d.platforms);
    assert_eq!(
        names,
        [
            "darwin-arm64",
            "darwin-x64",
            "linux-arm64-gnu",
            "linux-x64-gnu"
        ]
    );
}

#[test]
fn libc_applies_only_to_linux() {
    let yaml =
        "supportedArchitectures:\n  os: [linux, darwin]\n  cpu: [arm64]\n  libc: [musl]\n";
    let d = derive_platforms(Some(&workspace(yaml)), Os::Linux, Cpu::X64).unwrap();
    assert_eq!(d.platforms.get("darwin-arm64").unwrap().libc, None);
    assert_eq!(d.platforms.get("linux-arm64-musl").unwrap().libc, Some(Libc::Musl));
    assert_eq!(
        d.platforms.len(),
        2,
        "no darwin-musl platform may be emitted"
    );
}

#[test]
fn win32_is_skipped_with_a_warning() {
    let yaml = "supportedArchitectures:\n  os: [linux, win32]\n  cpu: [x64]\n";
    let d = derive_platforms(Some(&workspace(yaml)), Os::Linux, Cpu::X64).unwrap();
    assert_eq!(d.platforms.len(), 1);
    assert!(d.platforms.contains_key("linux-x64-gnu"));
    assert_eq!(d.warnings, vec![DeriveWarning::Win32Skipped]);
}

#[test]
fn only_win32_is_an_error() {
    let yaml = "supportedArchitectures:\n  os: [win32]\n  cpu: [x64]\n";
    let err = derive_platforms(Some(&workspace(yaml)), Os::Linux, Cpu::X64).unwrap_err();
    assert!(
        matches!(
            err,
            DeriveError::NoUsablePlatforms { axis: "os", ref warnings }
                if warnings == &[DeriveWarning::Win32Skipped]
        ),
        "{err:?}"
    );
}

#[test]
fn current_resolves_to_the_host() {
    let yaml = "supportedArchitectures:\n  os: [current]\n  cpu: [current]\n";
    let d = derive_platforms(Some(&workspace(yaml)), Os::Linux, Cpu::X64).unwrap();
    let names = keys(&d.platforms);
    assert_eq!(names, ["linux-x64-gnu"]);
}

#[test]
fn absent_os_and_cpu_axes_fall_back_to_the_host() {
    let yaml = "supportedArchitectures:\n  libc: [glibc]\n";
    let d = derive_platforms(Some(&workspace(yaml)), Os::Linux, Cpu::X64).unwrap();
    let names = keys(&d.platforms);
    assert_eq!(names, ["linux-x64-gnu"]);
}

#[test]
fn unusable_libc_axis_names_the_axis_and_surfaces_warnings() {
    let yaml = "supportedArchitectures:\n  os: [linux]\n  cpu: [x64]\n  libc: [uclibc]\n";
    let err = derive_platforms(Some(&workspace(yaml)), Os::Linux, Cpu::X64).unwrap_err();
    assert!(
        matches!(
            err,
            DeriveError::NoUsablePlatforms { axis: "libc", ref warnings }
                if warnings == &[DeriveWarning::UnknownLibc { value: "uclibc".to_string() }]
        ),
        "{err:?}"
    );
}

#[test]
fn unknown_keys_warn_rather_than_fail() {
    let yaml = "supportedArchitectures:\n  os: [linux]\n  cpu: [x64]\n  future: [thing]\n";
    let d = derive_platforms(Some(&workspace(yaml)), Os::Linux, Cpu::X64).unwrap();
    assert_eq!(d.platforms.len(), 1);
    assert_eq!(
        d.warnings,
        vec![DeriveWarning::UnknownKey {
            key: "future".to_string()
        }]
    );
}

#[test]
fn absent_supported_architectures_uses_defaults() {
    let d = derive_platforms(Some(&workspace("packages:\n  - packages/*\n")), Os::Linux, Cpu::X64).unwrap();
    assert_eq!(d.platforms.len(), 3);
}

#[test]
fn a_non_sequence_axis_is_a_hard_error_naming_the_axis() {
    let yaml = "supportedArchitectures:\n  os: linux\n  cpu: [x64]\n";
    let err = derive_platforms(Some(&workspace(yaml)), Os::Linux, Cpu::X64).expect_err("must be fatal");
    assert!(
        matches!(&err, DeriveError::AxisNotASequence { key, .. } if key == "os"),
        "error: {err:?}"
    );
}

#[test]
fn a_non_mapping_supported_architectures_warns() {
    let yaml = "supportedArchitectures: linux\n";
    let d = derive_platforms(Some(&workspace(yaml)), Os::Linux, Cpu::X64).expect("must not be fatal");
    assert!(
        d.warnings
            .iter()
            .any(|w| matches!(w, DeriveWarning::SupportedArchitecturesNotAMapping)),
        "warnings: {:?}",
        d.warnings
    );
}

#[test]
fn a_non_string_axis_entry_warns_rather_than_vanishing() {
    let yaml = "supportedArchitectures:\n  os: [linux]\n  cpu: [123, x64]\n";
    let d = derive_platforms(Some(&workspace(yaml)), Os::Linux, Cpu::X64).expect("must not be fatal");
    assert!(
        d.warnings.iter().any(|w| matches!(
            w,
            DeriveWarning::NonStringAxisEntry { key, .. } if key == "cpu"
        )),
        "warnings: {:?}",
        d.warnings
    );
}

#[test]
fn an_unknown_cpu_value_warns() {
    let yaml = "supportedArchitectures:\n  os: [linux]\n  cpu: [ppc64, x64]\n";
    let d = derive_platforms(Some(&workspace(yaml)), Os::Linux, Cpu::X64).expect("must not be fatal");
    assert!(
        d.warnings.iter().any(|w| matches!(
            w,
            DeriveWarning::UnknownCpu { value } if value == "ppc64"
        )),
        "warnings: {:?}",
        d.warnings
    );
}

#[test]
fn a_part_that_nothing_reads_may_repeat_a_key() {
    let text = "packages:\n  a: 1\n  a: 2\nx: 1\nx: 2\nsupportedArchitectures:\n  os: [linux]\n  cpu: [x64]\n";
    let d = derive_platforms(Some(&workspace(text)), Os::Linux, Cpu::X64).unwrap();
    assert_eq!(keys(&d.platforms), ["linux-x64-gnu"]);
    let text = "catalog: {a: 1, a: 2}\n";
    let d = derive_platforms(Some(&workspace(text)), Os::Linux, Cpu::X64).unwrap();
    assert_eq!(d.platforms.len(), 3);
}

#[test]
fn the_block_itself_repeats_nothing() {
    for text in [
        "supportedArchitectures: {os: [linux]}\nsupportedArchitectures: {os: [darwin]}\n",
        "supportedArchitectures: {os: [linux], os: [darwin]}\n",
    ] {
        let e = derive_platforms(Some(&workspace(text)), Os::Linux, Cpu::X64).unwrap_err();
        assert!(matches!(e, DeriveError::WorkspaceParse { .. }), "{text:?}: {e:?}");
    }
}

#[test]
fn a_document_and_the_reader_agree() {
    for text in [
        "",
        "a: 1\n",
        "supportedArchitectures: ~\n",
        "supportedArchitectures: !t {os: [linux]}\n",
        "!t\nsupportedArchitectures: {os: [linux]}\n",
        "x: &a {os: [linux]}\nsupportedArchitectures: *a\n",
        "supportedArchitectures: text\n",
    ] {
        let w = workspace(text);
        let by_document = derive_platforms(Some(&w), Os::Linux, Cpu::X64);
        let by_reader = platforms_in(Err(String::new()), &w.reading, Os::Linux, Cpu::X64);
        assert_eq!(by_document, by_reader, "{text:?}");
    }
}
