//! What a project is scaffolded with.

use pudu::cli::config_check::{
    count_line, early_envelope, envelope, envelope_text, ok_line, OutputFormat,
};
use pudu::cli::context::lockfile_error;
use pudu::cli::init::{
    bzl_label, cell_prefix, derive_platforms, detect, found_at, locate, next_steps, outcome_warnings, platform_name, platforms_from, platforms_in,
    recorded_lockfile, scaffold, DirProbe, Found, TOOLCHAINS_BZL,
    Workspace,
};
use pudu::cli::stub::unimplemented;
use pudu::cli::toolchain::{apply, managed_block, AppendOutcome};
use pudu::config::Config;
use pudu::error::{
    CliError, ConfigError, ConfigWarning, DeriveError, DeriveWarning, InitWarning,
};
use pudu::platform::{Cpu, Libc, Os};
use pudu::yaml::Yaml;
use serde::de::{Deserializer, Error, IgnoredAny, MapAccess, Visitor};
use serde_norway::Value;

/// Finds the block of a workspace file and skips everything else.
struct BlockVisitor;

impl<'de> Visitor<'de> for BlockVisitor {
    type Value = Option<Value>;

    fn expecting(&self, f: &mut std::fmt::Formatter<'_>) -> std::fmt::Result {
        f.write_str("struct WorkspaceYaml")
    }

    fn visit_map<A: MapAccess<'de>>(self, mut map: A) -> Result<Option<Value>, A::Error> {
        let mut block = None;
        while let Some(name) = map.next_key::<String>()? {
            if name != "supportedArchitectures" {
                map.next_value::<IgnoredAny>()?;
            } else if block.is_some() {
                return Err(A::Error::duplicate_field("supportedArchitectures"));
            } else {
                block = Some(map.next_value::<Option<Value>>()?);
            }
        }
        Ok(block.flatten())
    }
}

fn yaml_value(v: Value) -> Yaml {
    match v {
        Value::Null => Yaml::Null,
        Value::Bool(b) => Yaml::Bool(b),
        Value::Number(_) => Yaml::Number,
        Value::String(s) => Yaml::Text(s),
        Value::Sequence(s) => Yaml::List(s.into_iter().map(yaml_value).collect()),
        Value::Mapping(m) => Yaml::Mapping(
            m.into_iter()
                .map(|(k, v)| (yaml_value(k), yaml_value(v)))
                .collect(),
        ),
        Value::Tagged(t) => Yaml::Tagged(Box::new(yaml_value(t.value))),
    }
}

fn workspace(text: &str) -> Workspace {
    let reading = serde_norway::Deserializer::from_str(text)
        .deserialize_struct("WorkspaceYaml", &["supportedArchitectures"], BlockVisitor)
        .map(|block| block.map(yaml_value))
        .map_err(|e| e.to_string());
    Workspace {
        text: text.to_string(),
        reading,
    }
}

fn probe(dir: &str, has_lockfile: bool, has_workspace_yaml: bool) -> DirProbe {
    DirProbe {
        dir: dir.to_string(),
        has_lockfile,
        has_workspace_yaml,
    }
}

#[test]
fn detects_lockfile_from_a_subdirectory() {
    let walk = vec![
        probe("/repo/packages/server", false, false),
        probe("/repo/packages", false, true),
        probe("/repo", true, false),
        probe("/", true, true),
    ];
    let found = detect(&walk).expect("walks upward to the lockfile");
    assert_eq!(found.lockfile, "/repo/pnpm-lock.yaml");
    assert!(found.workspace_yaml.is_none());
}

#[test]
fn detect_returns_none_without_a_lockfile() {
    assert!(detect(&vec![probe("/repo", false, true), probe("/", false, false)]).is_none());
    assert!(detect(&vec![]).is_none());
}

#[test]
fn detect_finds_a_sibling_workspace_yaml() {
    let walk = vec![
        probe("/repo/packages/server", false, false),
        probe("/repo", true, true),
    ];
    let found = detect(&walk).expect("walks upward to the lockfile");
    assert_eq!(
        found.workspace_yaml,
        Some("/repo/pnpm-workspace.yaml".to_string())
    );
}

#[test]
fn platform_names_spell_glibc_as_gnu() {
    assert_eq!(
        platform_name(Os::Linux, Cpu::X64, Some(Libc::Glibc)),
        "linux-x64-gnu"
    );
    assert_eq!(platform_name(Os::Darwin, Cpu::Arm64, None), "darwin-arm64");
}

#[test]
fn a_scaffold_at_the_cell_root() {
    let found = Some(Found {
        lockfile_rel: "pnpm-lock.yaml".to_string(),
        project_rel: None,
    });
    let s = scaffold(
        &found,
        Some(&workspace("supportedArchitectures:\n  os: [linux]\n  cpu: [x64]\n")),
        None,
        false,
        Os::Linux,
        Cpu::X64,
    )
    .unwrap();
    assert_eq!(
        s.block,
        managed_block("root//third-party/js:toolchains.bzl")
    );
    assert_eq!(s.toolchains, Some(s.block.clone()));
    assert_eq!(s.outcome, AppendOutcome::Created);
    assert_eq!(s.node_toolchain, "toolchains//:node");
    assert_eq!(
        s.config,
        "# Generated by `pudu init`. Edit freely.\n\
         # Full schema: https://github.com/rsJames-ttrpg/pudu/blob/main/docs/superpowers/specs/2026-08-30-pudu-design.md\n\
         \n\
         lockfile_path   = \"pnpm-lock.yaml\"\n\
         third_party_dir = \"third-party/js\"\n\
         \n\
         [platforms.linux-x64-gnu]\n\
         os   = \"linux\"\n\
         cpu  = \"x64\"\n\
         libc = \"glibc\"\n\
         \n\
         [registry]\n\
         default = \"https://registry.npmjs.org\"\n\
         \n\
         [fixups]\n\
         # Community fixup registry. Leave as \"none\" until a v0.1.0+ release exists.\n\
         registry              = \"none\"\n\
         allow_local_overrides = true\n\
         \n\
         [scripts]\n\
         # Packages whose lifecycle scripts are acknowledged (not run). See design §6.\n\
         allow = []\n\
         \n\
         [buck]\n\
         file_name      = \"BUCK\"\n\
         node_toolchain = \"toolchains//:node\"\n"
    );
    assert_eq!(next_steps(true, &s.outcome), "pudu vendor && pudu buckify");
}

#[test]
fn an_existing_toolchain_is_recorded_and_left_alone() {
    let s = scaffold(
        &None,
        None,
        Some("system_node_toolchain(name = \"mine\")\n"),
        true,
        Os::Linux,
        Cpu::X64,
    )
    .unwrap();
    assert_eq!(s.toolchains, None);
    assert_eq!(s.node_toolchain, "toolchains//:mine");
    assert!(s.config.contains("node_toolchain = \"toolchains//:mine\"\n"));
    assert!(s.config.contains("could not find a pnpm-lock.yaml"));
    assert_eq!(
        outcome_warnings(&s.outcome, "toolchains/BUCK", &s.node_toolchain),
        vec![InitWarning::ExistingToolchain {
            path: "toolchains/BUCK".to_string(),
            name: "mine".to_string(),
            recorded: "toolchains//:mine".to_string(),
        }]
    );
    assert_eq!(
        next_steps(false, &s.outcome),
        "edit `lockfile_path` in pudu.toml, then pudu config check"
    );
}

#[test]
fn a_project_below_the_lockfile_gets_a_prefixed_label() {
    let found = Some(Found {
        lockfile_rel: "../pnpm-lock.yaml".to_string(),
        project_rel: Some("web".to_string()),
    });
    let s = scaffold(&found, None, None, false, Os::Linux, Cpu::X64).unwrap();
    assert_eq!(s.prefix, Some("web".to_string()));
    assert_eq!(
        s.block,
        managed_block("root//web/third-party/js:toolchains.bzl")
    );
}

#[test]
fn a_scaffold_converges() {
    let run = |existing: Option<&str>| {
        scaffold(&None, None, existing, true, Os::Linux, Cpu::X64).unwrap()
    };
    let first = run(Some("x = 1\n")).toolchains.unwrap();
    let second = run(Some(&first));
    assert_eq!(second.toolchains, None);
    assert_eq!(second.outcome, AppendOutcome::AlreadyManaged);
}

#[test]
fn an_unusable_workspace_fails_the_scaffold() {
    let e = scaffold(
        &None,
        Some(&workspace("supportedArchitectures:\n  cpu: x64\n")),
        None,
        false,
        Os::Linux,
        Cpu::X64,
    )
    .unwrap_err();
    assert_eq!(
        e,
        DeriveError::AxisNotASequence {
            key: "cpu".to_string(),
            example: "x64".to_string()
        }
    );
    let e = scaffold(&None, Some(&workspace("a: [\n")), None, false, Os::Linux, Cpu::X64).unwrap_err();
    assert!(matches!(e, DeriveError::WorkspaceParse { .. }), "{e:?}");
    let e = scaffold(&None, Some(&workspace("- a\n")), None, false, Os::Linux, Cpu::X64).unwrap_err();
    assert!(matches!(e, DeriveError::WorkspaceParse { .. }), "{e:?}");
}

#[test]
fn unbalanced_markers_say_so() {
    let warnings = outcome_warnings(&AppendOutcome::Unparseable, "toolchains/BUCK", "x");
    assert_eq!(
        warnings,
        vec![InitWarning::UnbalancedMarkers {
            path: "toolchains/BUCK".to_string()
        }]
    );
    assert_eq!(
        next_steps(true, &AppendOutcome::Unparseable),
        "add the block above to toolchains/BUCK, then pudu vendor && pudu buckify"
    );
    let unparsed = AppendOutcome::ExistingToolchain {
        name: "node".to_string(),
        parsed: false,
    };
    assert_eq!(outcome_warnings(&unparsed, "p", "r").len(), 2);
}

#[test]
fn a_darwin_host_resolves_current_and_absent_axes() {
    let sa = Yaml::Mapping(vec![(
        Yaml::Text("os".to_string()),
        Yaml::List(vec![Yaml::Text("current".to_string()), Yaml::Bool(true)]),
    )]);
    let d = platforms_from(Some(&sa), Os::Darwin, Cpu::Arm64).unwrap();
    assert_eq!(d.platforms.len(), 1);
    assert!(d.platforms.contains_key("darwin-arm64"));
    assert_eq!(
        d.warnings,
        vec![DeriveWarning::NonStringAxisEntry {
            key: "os".to_string()
        }]
    );
}

#[test]
fn every_linux_platform_has_a_libc_and_no_other_has() {
    let axis = |items: &[&str]| {
        Yaml::List(items.iter().map(|s| Yaml::Text(s.to_string())).collect())
    };
    let sa = Yaml::Mapping(vec![
        (
            Yaml::Text("os".to_string()),
            axis(&["darwin", "linux", "win32", "beos"]),
        ),
        (
            Yaml::Text("cpu".to_string()),
            axis(&["arm64", "x64", "arm64"]),
        ),
        (Yaml::Text("libc".to_string()), axis(&["musl", "glibc"])),
    ]);
    let d = platforms_from(Some(&sa), Os::Linux, Cpu::X64).unwrap();
    assert_eq!(d.platforms.len(), 6);
    for i in 0..d.platforms.len() {
        let p = d.platforms.value(i);
        assert_eq!(p.os == Os::Linux, p.libc.is_some());
        assert_eq!(
            d.platforms.key(i),
            &platform_name(p.os, p.cpu, p.libc)
        );
    }
    assert_eq!(
        d.warnings,
        vec![
            DeriveWarning::Win32Skipped,
            DeriveWarning::UnknownOs {
                value: "beos".to_string()
            }
        ]
    );
}

#[test]
fn paths_outside_the_cell_get_no_prefix() {
    assert_eq!(cell_prefix(""), None);
    assert_eq!(cell_prefix("../x"), None);
    assert_eq!(cell_prefix("..x"), Some("..x".to_string()));
    assert_eq!(cell_prefix("a\\b"), Some("a/b".to_string()));
    assert_eq!(
        bzl_label(Some("a/b"), "tp"),
        "root//a/b/tp:toolchains.bzl"
    );
    assert_eq!(recorded_lockfile(Some("..\\l")), "../l");
}

#[test]
fn a_file_without_an_end_of_line_keeps_its_text_when_appended_to() {
    let (written, outcome) = apply(Some("x = 1"), "BLOCK\n", false);
    assert_eq!(outcome, AppendOutcome::Appended);
    assert_eq!(written.unwrap(), "x = 1\n\nBLOCK\n");
}

#[test]
fn the_rule_file_defines_the_toolchain() {
    assert!(TOOLCHAINS_BZL.contains("system_node_toolchain = rule("));
}

#[test]
fn lines_of_config_check() {
    let d = platforms_from(None, Os::Linux, Cpu::X64).unwrap();
    assert_eq!(
        ok_line(&d.platforms),
        "pudu.toml ok: 3 platforms (darwin-arm64, linux-arm64-gnu, linux-x64-gnu)"
    );
    assert_eq!(count_line(1), None);
    assert_eq!(count_line(2), Some("2 errors in pudu.toml".to_string()));
    assert_ne!(OutputFormat::Human, OutputFormat::Json);
}

#[test]
fn failures_of_commands() {
    assert_eq!(
        unimplemented("audit", "later"),
        CliError::Unimplemented {
            verb: "audit".to_string(),
            stage: "later".to_string()
        }
    );
    assert_eq!(
        lockfile_error("/l", true, "gone".to_string()),
        ConfigError::LockfileNotFound {
            path: "/l".to_string()
        }
    );
    assert_eq!(
        lockfile_error("/l", false, "denied".to_string()),
        ConfigError::LockfileUnreadable {
            path: "/l".to_string(),
            source: "denied".to_string()
        }
    );
}

#[test]
fn findings_for_machines() {
    let e = envelope(
        &vec![
            ConfigError::Parse {
                path: "pudu.toml".to_string(),
                source: "line 1".to_string(),
            },
            ConfigError::NoPlatforms,
        ],
        &vec![ConfigWarning::UnpinnedFixupRegistry],
    );
    assert!(!e.ok);
    assert_eq!(
        e.errors,
        vec![
            "failed to parse pudu.toml: line 1".to_string(),
            "no platforms configured".to_string()
        ]
    );
    assert_eq!(
        e.warnings,
        vec!["`[fixups].registry` is set but `registry_rev` is not pinned".to_string()]
    );
    assert!(envelope(&vec![], &vec![]).ok);
    assert_eq!(
        envelope_text(&envelope(&vec![ConfigError::NoPlatforms], &vec![])),
        "{\n  \"errors\": [\n    \"no platforms configured\"\n  ],\n  \"ok\": false,\n  \"warnings\": []\n}"
    );
    let early = early_envelope("cannot read pudu.toml", &vec!["denied".to_string()]);
    assert!(!early.ok);
    assert_eq!(early.errors, vec!["cannot read pudu.toml: denied".to_string()]);
    assert!(early.warnings.is_empty());
}

#[test]
fn a_project_is_located_from_its_lockfile() {
    let walk = vec![
        probe("/repo/packages/web", false, false),
        probe("/repo/packages", false, false),
        probe("/repo", true, false),
    ];
    let detected = detect(&walk).unwrap();
    assert_eq!(detected.dir, "/repo");
    let found = locate(&detected, "/repo/packages/web");
    assert_eq!(found.lockfile_rel, "../../pnpm-lock.yaml");
    assert_eq!(found.project_rel, Some("packages/web".to_string()));
    let at_root = locate(&detected, "/repo");
    assert_eq!(at_root.lockfile_rel, "pnpm-lock.yaml");
    assert_eq!(at_root.project_rel, None);
    let beside = locate(&detected, "/other");
    assert_eq!(beside.lockfile_rel, "../repo/pnpm-lock.yaml");
    assert_eq!(beside.project_rel, Some("../other".to_string()));
}

#[test]
fn without_a_way_the_lockfile_is_named_as_it_is() {
    let detected = detect(&vec![probe("/repo", true, false)]).unwrap();
    let found = found_at(&detected, "x", None, None);
    assert_eq!(found.lockfile_rel, "/repo/pnpm-lock.yaml");
    assert_eq!(found.project_rel, Some(String::new()));
}

#[test]
fn a_workspace_file_is_a_mapping_or_empty() {
    for good in ["", "# nothing\n", "packages: []\n", "supportedArchitectures: ~\n"] {
        let d = derive_platforms(Some(&workspace(good)), Os::Linux, Cpu::X64).unwrap();
        assert_eq!(d.platforms.len(), 3, "{good:?}");
    }
    for bad in ["~\n", "null\n", "- a\n", "text\n", "a: [\n"] {
        let e = derive_platforms(Some(&workspace(bad)), Os::Linux, Cpu::X64).unwrap_err();
        assert!(matches!(e, DeriveError::WorkspaceParse { .. }), "{bad:?}: {e:?}");
    }
    let e = platforms_in(
        Ok(Yaml::Null),
        &Err("no mapping".to_string()),
        Os::Linux,
        Cpu::X64,
    )
    .unwrap_err();
    assert_eq!(
        e,
        DeriveError::WorkspaceParse {
            path: "pnpm-workspace.yaml".to_string(),
            source: "no mapping".to_string()
        }
    );
}

#[test]
fn a_written_scaffold_passes_the_check() {
    for existing in [
        None,
        Some("x = 1\n"),
        Some("system_node_toolchain(name = \"mine+1.0_a-b\")\n"),
        Some("system_node_toolchain(name = \"no good\")\n"),
    ] {
        let s = scaffold(
            &None,
            Some(&workspace("supportedArchitectures:\n  os: [linux, darwin]\n  libc: [musl]\n")),
            existing,
            false,
            Os::Linux,
            Cpu::Arm64,
        )
        .unwrap();
        let c = Config::from_str(&s.config, Err("unread".to_string()), "pudu.toml").unwrap();
        assert_eq!(c.platforms, s.derived.platforms);
        assert_eq!(c.buck.node_toolchain, s.node_toolchain);
        assert_eq!(c.validate().0, vec![]);
    }
}
