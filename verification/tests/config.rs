//! What `pudu.toml` configures.

use pudu::cli::init::{derive_platforms, render_config, Workspace};
use pudu::config::{
    default_file_name, default_fixup_registry, default_node_toolchain, default_registry_url,
    default_third_party_dir, is_buck_label, is_npm_name, parse_fixup_registry, BuckConfig, Config,
    FixupRegistry, Platform, RawConfig, RegistryConfig, Url,
};
use pudu::dict::{Dict, NameSet};
use pudu::error::{ConfigError, ConfigWarning};
use pudu::platform::{Cpu, Libc, Os};
use pudu::toml_doc::Toml;
use pudu::yaml::Yaml;
use serde::de::{Deserializer, Error, IgnoredAny, MapAccess, Visitor};
use serde_norway::Value;

/// Finds the block of a workspace file and skips everything else.
struct BlockVisitor;

impl<'de> Visitor<'de> for BlockVisitor {
    type Value = Option<Value>;

    fn expecting(&self, f: &mut std::fmt::Formatter<'_>) -> std::fmt::Result {
        f.write_str("struct WorkspaceYaml")
    }

    fn visit_map<A: MapAccess<'de>>(self, mut map: A) -> Result<Option<Value>, A::Error> {
        let mut block = None;
        while let Some(name) = map.next_key::<String>()? {
            if name != "supportedArchitectures" {
                map.next_value::<IgnoredAny>()?;
            } else if block.is_some() {
                return Err(A::Error::duplicate_field("supportedArchitectures"));
            } else {
                block = Some(map.next_value::<Option<Value>>()?);
            }
        }
        Ok(block.flatten())
    }
}

fn yaml_value(v: Value) -> Yaml {
    match v {
        Value::Null => Yaml::Null,
        Value::Bool(b) => Yaml::Bool(b),
        Value::Number(_) => Yaml::Number,
        Value::String(s) => Yaml::Text(s),
        Value::Sequence(s) => Yaml::List(s.into_iter().map(yaml_value).collect()),
        Value::Mapping(m) => Yaml::Mapping(
            m.into_iter()
                .map(|(k, v)| (yaml_value(k), yaml_value(v)))
                .collect(),
        ),
        Value::Tagged(t) => Yaml::Tagged(Box::new(yaml_value(t.value))),
    }
}

fn workspace(text: &str) -> Workspace {
    let reading = serde_norway::Deserializer::from_str(text)
        .deserialize_struct("WorkspaceYaml", &["supportedArchitectures"], BlockVisitor)
        .map(|block| block.map(yaml_value))
        .map_err(|e| e.to_string());
    Workspace {
        text: text.to_string(),
        reading,
    }
}

const GOOD: &str = r#"
lockfile_path   = "pnpm-lock.yaml"
third_party_dir = "third-party/js"

[platforms.linux-x64-gnu]
os   = "linux"
cpu  = "x64"
libc = "glibc"

[platforms.darwin-arm64]
os  = "darwin"
cpu = "arm64"

[registry]
default  = "https://registry.npmjs.org"
"@myorg" = "https://npm.example.com"

[fixups]
registry = "none"

[scripts]
allow = ["sharp"]

[buck]
file_name = "BUCK"
"#;

/// The complaint of a reader that knows no field.
fn reading(source: &str) -> Result<RawConfig, String> {
    match toml::from_str::<toml::Value>(source) {
        Ok(_) => Err("not a configuration".to_string()),
        Err(e) => Err(e.to_string()),
    }
}

fn read(source: &str) -> Result<Config, ConfigError> {
    Config::from_str(source, reading(source), "pudu.toml")
}

#[test]
fn parses_a_full_config() {
    let c = read(GOOD).unwrap();
    assert_eq!(c.platforms.len(), 2);
    assert_eq!(c.platforms.get("linux-x64-gnu").unwrap().os, Os::Linux);
    assert_eq!(
        c.platforms.get("linux-x64-gnu").unwrap().libc,
        Some(Libc::Glibc)
    );
    assert_eq!(c.platforms.get("darwin-arm64").unwrap().libc, None);
    assert_eq!(
        c.registry.scopes.get("@myorg").unwrap().as_str(),
        "https://npm.example.com/"
    );
    assert_eq!(c.fixups.registry, FixupRegistry::Disabled);
    assert!(c.scripts.allow.contains("sharp"));
}

#[test]
fn applies_documented_defaults() {
    let c = read("lockfile_path = \"pnpm-lock.yaml\"\n[platforms.darwin-arm64]\nos = \"darwin\"\ncpu = \"arm64\"\n").unwrap();
    assert_eq!(c.third_party_dir, "third-party/js");
    assert_eq!(c.buck.file_name, "BUCK");
    assert_eq!(c.buck.node_toolchain, "toolchains//:node");
    assert!(c.fixups.allow_local_overrides);
    assert_eq!(c.registry.default.as_str(), "https://registry.npmjs.org/");
}

#[test]
fn parse_error_names_the_file() {
    let err = Config::from_str(
        "lockfile_path = \n",
        reading("lockfile_path = \n"),
        "/repo/pudu.toml",
    ).unwrap_err();
    assert!(err.message().contains("/repo/pudu.toml"));
    assert!(matches!(err, ConfigError::Parse { .. }));
}

#[test]
fn fixup_registry_forms() {
    for (input, want) in [
        ("none", FixupRegistry::Disabled),
        ("file:///tmp/reg", FixupRegistry::File("/tmp/reg".to_string())),
        (
            "github.com/owner/repo",
            FixupRegistry::Github {
                owner: "owner".into(),
                repo: "repo".into(),
            },
        ),
    ] {
        let source = format!(
            "lockfile_path=\"x\"\n[platforms.p]\nos=\"linux\"\ncpu=\"x64\"\n[fixups]\nregistry=\"{input}\"\n"
        );
        let c = read(&source).unwrap();
        assert_eq!(c.fixups.registry, want, "for input {input}");
    }
}

#[test]
fn rejects_unrecognized_fixup_registry() {
    let source = "lockfile_path=\"x\"\n[platforms.p]\nos=\"linux\"\ncpu=\"x64\"\n[fixups]\nregistry=\"gitlab.com/a/b\"\n";
    let err = read(source).unwrap_err();
    assert!(matches!(err, ConfigError::BadFixupRegistry { .. }));
}

#[test]
fn a_github_registry_needs_an_owner_and_a_repo() {
    for bad in ["github.com/", "github.com/a", "github.com/a/", "github.com//b", "github.com/a/b/c"] {
        assert_eq!(
            parse_fixup_registry(bad),
            Err(ConfigError::BadFixupRegistry {
                value: bad.to_string()
            })
        );
    }
}

#[test]
fn generated_config_matches_config_defaults() {
    let defaults = read(
        "lockfile_path = \"pnpm-lock.yaml\"\n[platforms.linux-x64-gnu]\nos = \"linux\"\ncpu = \"x64\"\nlibc = \"glibc\"\n",
    )
    .unwrap();
    let rendered = render_config(
        "pnpm-lock.yaml",
        &default_third_party_dir(),
        &default_node_toolchain(),
        &defaults.platforms,
        true,
    );
    let generated = read(&rendered).unwrap();
    assert_eq!(generated.lockfile_path, defaults.lockfile_path);
    assert_eq!(generated.third_party_dir, defaults.third_party_dir);
    assert_eq!(generated.registry, defaults.registry);
    assert_eq!(generated.fixups, defaults.fixups);
    assert_eq!(generated.scripts, defaults.scripts);
    assert_eq!(generated.buck, defaults.buck);
    assert_eq!(generated.platforms, defaults.platforms);
    assert_eq!(generated, defaults);
}

#[test]
fn a_good_config_has_no_errors() {
    let (errors, warnings) = read(GOOD).unwrap().validate();
    assert!(errors.is_empty(), "{errors:?}");
    assert!(warnings.is_empty(), "{warnings:?}");
}

#[test]
fn every_error_is_reported_not_just_the_first() {
    let c = read("lockfile_path=\"pnpm-lock.yaml\"\n[platforms.a]\nos=\"win32\"\ncpu=\"x64\"\nlibc=\"glibc\"\n").unwrap();
    let (errors, warnings) = c.validate();
    assert_eq!(
        errors,
        vec![
            ConfigError::WindowsUnsupported {
                platform: "a".into()
            },
            ConfigError::LibcOnNonLinux {
                platform: "a".into()
            },
        ]
    );
    assert_eq!(
        warnings,
        vec![ConfigWarning::SinglePlatform { name: "a".into() }]
    );
}

#[test]
fn two_names_for_one_machine_are_an_error() {
    let c = read("lockfile_path=\"l\"\n[platforms.a]\nos=\"linux\"\ncpu=\"x64\"\n[platforms.b]\nos=\"linux\"\ncpu=\"x64\"\n").unwrap();
    assert_eq!(
        c.validate().0,
        vec![ConfigError::DuplicatePlatform {
            first: "a".into(),
            second: "b".into()
        }]
    );
}

#[test]
fn no_platforms_is_an_error() {
    let c = read("lockfile_path=\"l\"\n").unwrap();
    assert_eq!(c.validate().0, vec![ConfigError::NoPlatforms]);
}

#[test]
fn registries_are_http_and_scopes_start_with_an_at() {
    let c = read("lockfile_path=\"l\"\n[platforms.a]\nos=\"linux\"\ncpu=\"x64\"\n[platforms.b]\nos=\"darwin\"\ncpu=\"x64\"\n[registry]\ndefault=\"ftp://x.example/\"\nmyorg=\"https://y.example/\"\n").unwrap();
    assert_eq!(
        c.validate().0,
        vec![
            ConfigError::BadRegistryUrl {
                key: "default".into(),
                url: "ftp://x.example/".into()
            },
            ConfigError::BadRegistryScope {
                scope: "myorg".into()
            },
        ]
    );
}

#[test]
fn a_file_registry_needs_an_absolute_path() {
    let c = read("lockfile_path=\"l\"\n[platforms.a]\nos=\"linux\"\ncpu=\"x64\"\n[platforms.b]\nos=\"darwin\"\ncpu=\"x64\"\n[fixups]\nregistry=\"file://\"\n").unwrap();
    let (errors, warnings) = c.validate();
    assert_eq!(errors.len(), 1);
    assert_eq!(
        errors[0].message(),
        "`[fixups].registry` value `file://` has no absolute path after `file://`"
    );
    assert_eq!(warnings, vec![ConfigWarning::UnpinnedFixupRegistry]);
}

#[test]
fn labels_have_a_cell_a_path_and_a_target() {
    for good in ["toolchains//:node", "prelude//os/constraints:linux", "//a:b"] {
        assert!(is_buck_label(good), "{good}");
    }
    for bad in ["", "node", "a:b", "a//b", "a//b:", "a//b:c d", "a//b:c:d"] {
        assert!(!is_buck_label(bad), "{bad}");
    }
}

#[test]
fn a_url_is_normalized_and_nonsense_is_none() {
    assert_eq!(
        Url::parse("HTTPS://Example.COM").unwrap().as_str(),
        "https://example.com/"
    );
    assert_eq!(Url::parse("not a url"), None);
}

#[test]
fn what_is_derived_passes_the_check() {
    let derived = derive_platforms(
        Some(&workspace("supportedArchitectures:\n  os: [darwin, linux, win32]\n  cpu: [arm64, x64]\n  libc: [musl, glibc]\n")),
        Os::Linux,
        Cpu::X64,
    )
    .unwrap();
    let rendered = render_config(
        "pnpm-lock.yaml",
        &default_third_party_dir(),
        &default_node_toolchain(),
        &derived.platforms,
        true,
    );
    let config = read(&rendered).unwrap();
    assert_eq!(config.platforms, derived.platforms);
    assert_eq!(config.platforms.len(), 6);
    let (errors, warnings) = config.validate();
    assert!(errors.is_empty(), "{errors:?}");
    assert!(warnings.is_empty(), "{warnings:?}");
}

#[test]
fn acknowledged_scripts_name_npm_packages() {
    for good in ["sharp", "@scope/pkg", "JSONStream", "a.b-c_d", "@s/_x"] {
        assert!(is_npm_name(good), "{good}");
    }
    for bad in [
        "", ".hidden", "_private", "a b", "a/b", "@scope", "@/x", "@scope/", "@scope/.x", "@a/b/c",
        "node_modules", "favicon.ico", "naïve", "a@1.0.0",
    ] {
        assert!(!is_npm_name(bad), "{bad}");
    }
    let c = read("lockfile_path=\"l\"\n[platforms.a]\nos=\"linux\"\ncpu=\"x64\"\n[scripts]\nallow=[\"sharp\", \"a b\", \"@scope\"]\n").unwrap();
    assert_eq!(
        c.validate().0,
        vec![
            ConfigError::BadPackageName {
                name: "@scope".into()
            },
            ConfigError::BadPackageName { name: "a b".into() },
        ]
    );
}

fn plain_raw() -> RawConfig {
    RawConfig {
        lockfile_path: "read.yaml".to_string(),
        third_party_dir: default_third_party_dir(),
        platforms: Dict::new(),
        registry: RegistryConfig {
            default: default_registry_url(),
            scopes: Dict::new(),
        },
        fixup_registry: default_fixup_registry(),
        registry_rev: None,
        allow_local_overrides: true,
        scripts_allow: NameSet::new(),
        buck: BuckConfig {
            file_name: default_file_name(),
            node_toolchain: default_node_toolchain(),
        },
    }
}

#[test]
fn every_key_of_a_document_is_read() {
    let c = read(
        "lockfile_path = 'l.yaml'\nthird_party_dir = \"tp\"\n\
         [platforms.w]\nos = \"win32\"\ncpu = \"arm64\"\nconstraints = [\"a//b:c\", \"d//e:f\"]\n\
         [registry]\n\"@s\" = \"https://s.example\"\ndefault = \"http://r.example/npm/\"\n\
         [fixups]\nregistry = \"github.com/o/r\"\nregistry_rev = \"abc\"\nallow_local_overrides = false\n\
         [scripts]\nallow = [\"sharp\", \"esbuild\", \"sharp\"]\n\
         [buck]\nfile_name = \"BUCK.v2\"\nnode_toolchain = \"t//:n\"\n",
    )
    .unwrap();
    assert_eq!(c.lockfile_path, "l.yaml");
    assert_eq!(c.third_party_dir, "tp");
    assert_eq!(c.platforms.len(), 1);
    let w = c.platforms.get("w").unwrap();
    assert_eq!(w.os, Os::Win32);
    assert_eq!(w.cpu, Cpu::Arm64);
    assert_eq!(w.libc, None);
    assert_eq!(
        w.constraints,
        Some(vec!["a//b:c".to_string(), "d//e:f".to_string()])
    );
    assert_eq!(c.registry.default.as_str(), "http://r.example/npm/");
    assert_eq!(c.registry.scopes.len(), 1);
    assert_eq!(
        c.registry.scopes.get("@s").unwrap().as_str(),
        "https://s.example/"
    );
    assert_eq!(
        c.fixups.registry,
        FixupRegistry::Github {
            owner: "o".to_string(),
            repo: "r".to_string()
        }
    );
    assert_eq!(c.fixups.registry_rev, Some("abc".to_string()));
    assert!(!c.fixups.allow_local_overrides);
    assert_eq!(c.scripts.allow.len(), 2);
    assert!(c.scripts.allow.contains("esbuild"));
    assert_eq!(c.buck.file_name, "BUCK.v2");
    assert_eq!(c.buck.node_toolchain, "t//:n");
}

#[test]
fn the_reader_decides_where_a_document_spells_nothing_out() {
    for source in [
        "",
        "lockfile_path = 1\n",
        "lockfile_path = \"x\"\nunknown = 1\n",
        "lockfile_path = \"x\"\nthird_party_dir = true\n",
        "lockfile_path = \"x\"\nplatforms = []\n",
        "lockfile_path = \"x\"\n[platforms]\np = \"linux\"\n",
        "lockfile_path = \"x\"\n[platforms.p]\nos = \"linux\"\n",
        "lockfile_path = \"x\"\n[platforms.p]\nos = \"Linux\"\ncpu = \"x64\"\n",
        "lockfile_path = \"x\"\n[platforms.p]\nos = \"linux\"\ncpu = \"ia32\"\n",
        "lockfile_path = \"x\"\n[platforms.p]\nos = \"linux\"\ncpu = \"x64\"\nlibc = \"gnu\"\n",
        "lockfile_path = \"x\"\n[platforms.p]\nos = \"linux\"\ncpu = \"x64\"\nlibc = false\n",
        "lockfile_path = \"x\"\n[platforms.p]\nos = \"linux\"\ncpu = \"x64\"\nabi = \"x\"\n",
        "lockfile_path = \"x\"\n[platforms.p]\nos = \"linux\"\ncpu = \"x64\"\nconstraints = [1]\n",
        "lockfile_path = \"x\"\n[platforms.p]\nos = { linux = {} }\ncpu = \"x64\"\n",
        "lockfile_path = \"x\"\n[registry]\ndefault = \"not a url\"\n",
        "lockfile_path = \"x\"\n[registry]\n\"@s\" = 1\n",
        "lockfile_path = \"x\"\n[fixups]\nextra = 1\n",
        "lockfile_path = \"x\"\n[fixups]\nregistry_rev = 1\n",
        "lockfile_path = \"x\"\n[fixups]\nallow_local_overrides = \"yes\"\n",
        "lockfile_path = \"x\"\n[scripts]\nallow = \"sharp\"\n",
        "lockfile_path = \"x\"\n[scripts]\nallow = [1]\n",
        "lockfile_path = \"x\"\n[scripts]\ndeny = []\n",
        "lockfile_path = \"x\"\n[buck]\nfile_name = 1\n",
        "lockfile_path = \"x\"\n[buck]\nname = \"x\"\n",
    ] {
        let c = Config::from_str(source, Ok(plain_raw()), "p").unwrap();
        assert_eq!(c.lockfile_path, "read.yaml", "{source}");
        assert_eq!(
            Config::from_str(source, Err("a complaint".to_string()), "p"),
            Err(ConfigError::Parse {
                path: "p".to_string(),
                source: "a complaint".to_string()
            }),
            "{source}"
        );
    }
}

#[test]
fn a_document_that_is_spelled_out_needs_no_reader() {
    let c = Config::from_str("lockfile_path = \"x\"\n", Err("unread".to_string()), "p").unwrap();
    assert_eq!(c.lockfile_path, "x");
    assert_eq!(c.platforms.len(), 0);
    assert_eq!(c.registry.default.as_str(), "https://registry.npmjs.org/");
    let c = Config::from_str("lockfile_path = \"x\"\n", Ok(plain_raw()), "p").unwrap();
    assert_eq!(c.lockfile_path, "x");
}

#[test]
fn a_parsed_document_is_read_as_it_is() {
    let doc = Ok(Toml::Table(vec![
        ("lockfile_path".to_string(), Toml::Text("x".to_string())),
        (
            "fixups".to_string(),
            Toml::Table(vec![(
                "registry".to_string(),
                Toml::Text("gitlab.com/a/b".to_string()),
            )]),
        ),
    ]));
    assert_eq!(
        Config::from_document(&doc, Ok(plain_raw()), "p"),
        Err(ConfigError::BadFixupRegistry {
            value: "gitlab.com/a/b".to_string()
        })
    );
    let broken = Err("broken".to_string());
    assert_eq!(
        Config::from_document(&broken, Err("why".to_string()), "p"),
        Err(ConfigError::Parse {
            path: "p".to_string(),
            source: "why".to_string()
        })
    );
    assert_eq!(
        Config::from_document(&Ok(Toml::Other), Ok(plain_raw()), "p")
            .unwrap()
            .lockfile_path,
        "read.yaml"
    );
}

/// Platforms whose names take every bare character.
fn odd_platforms() -> Dict<Platform> {
    let mut platforms = Dict::new();
    for (name, os, cpu, libc) in [
        ("z", Os::Win32, Cpu::Arm64, None),
        ("-", Os::Linux, Cpu::X64, Some(Libc::Musl)),
        ("_A9-b", Os::Linux, Cpu::Arm64, Some(Libc::Glibc)),
        ("0", Os::Darwin, Cpu::X64, None),
        ("platforms", Os::Linux, Cpu::X64, None),
    ] {
        platforms.insert(
            name.to_string(),
            Platform {
                os,
                cpu,
                libc,
                constraints: None,
            },
        );
    }
    platforms
}

#[test]
fn a_starter_config_reads_back() {
    let unread = || Err("unread".to_string());
    for text in [
        "",
        "pnpm-lock.yaml",
        "../a b/#x.yaml",
        "[x] = 'y', {z}",
        "naïve/日本語",
        "a\u{a0}b",
    ] {
        for detected in [true, false] {
            let c = Config::from_str(
                &render_config(text, text, text, &odd_platforms(), detected),
                unread(),
                "p",
            )
            .unwrap();
            assert_eq!(c.lockfile_path, text);
            assert_eq!(c.third_party_dir, text);
            assert_eq!(c.buck.node_toolchain, text);
            assert_eq!(c.buck.file_name, "BUCK");
            assert_eq!(c.platforms, odd_platforms());
            assert_eq!(c.registry.default, default_registry_url());
            assert_eq!(c.registry.scopes.len(), 0);
            assert_eq!(c.fixups.registry, FixupRegistry::Disabled);
            assert_eq!(c.fixups.registry_rev, None);
            assert!(c.fixups.allow_local_overrides);
            assert_eq!(c.scripts.allow.len(), 0);
        }
    }
    let none = render_config("l", "t", "n", &Dict::new(), true);
    let c = Config::from_str(&none, unread(), "p").unwrap();
    assert_eq!(c.platforms.len(), 0);
}

#[test]
fn a_starter_config_with_a_quote_does_not_read_back() {
    let rendered = render_config("a\"b", "t", "n", &Dict::new(), true);
    assert!(Config::from_str(&rendered, reading(&rendered), "p").is_err());
}

#[test]
fn an_origin_is_a_url_up_to_its_slash() {
    for host in ["a", "localhost", "registry.npmjs.org", "a.b.c.d.e.f", "xn", "x.xn", "abc.xyz"] {
        let origin = format!("https://{host}");
        assert_eq!(
            Url::parse(&origin).unwrap().as_str(),
            format!("{origin}/"),
            "{host}"
        );
    }
    assert_eq!(
        default_registry_url().as_str(),
        "https://registry.npmjs.org/"
    );
}
