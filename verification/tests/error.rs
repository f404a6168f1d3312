//! Messages and exit codes.

use pudu::error::{
    capped_list, exit_code, full_message, http_help, BuckError, CliError, ConfigError,
    ConfigWarning, DeriveError, DeriveWarning, ExitCode, Failure, InitWarning, LockError,
    LockWarning, PlatformWarning, VendorError, VendorWarning,
};

#[test]
fn lockfile_not_found_names_the_resolved_path() {
    let e = ConfigError::LockfileNotFound {
        path: "/repo/pnpm-lock.yaml".to_string(),
    };
    let msg = e.message();
    assert!(
        msg.contains("/repo/pnpm-lock.yaml"),
        "message must name the file: {msg}"
    );
}

#[test]
fn libc_on_non_linux_names_the_platform() {
    let e = ConfigError::LibcOnNonLinux {
        platform: "darwin-arm64".into(),
    };
    assert!(e.message().contains("darwin-arm64"));
}

#[test]
fn required_dependency_excluded_names_all_three_parties() {
    let w = PlatformWarning::RequiredDependencyExcluded {
        dependent: "my-app@1.0.0".into(),
        target: "fsevents@2.3.3".into(),
        platform: "linux-x64-gnu".into(),
    };
    let msg = w.message();
    assert!(msg.contains("my-app@1.0.0"), "names the dependent: {msg}");
    assert!(msg.contains("fsevents@2.3.3"), "names the target: {msg}");
    assert!(msg.contains("linux-x64-gnu"), "names the platform: {msg}");
}

#[test]
fn excluded_everywhere_aggregates_into_one_message() {
    let w = PlatformWarning::ExcludedEverywhere {
        packages: vec![
            "@esbuild/aix-ppc64@0.25.12".into(),
            "@esbuild/sunos-x64@0.25.12".into(),
        ],
        platforms: vec!["linux-x64-gnu".into(), "darwin-arm64".into()],
    };
    let msg = w.message();
    assert!(msg.contains("@esbuild/aix-ppc64@0.25.12"), "{msg}");
    assert!(msg.contains("@esbuild/sunos-x64@0.25.12"), "{msg}");
    assert!(msg.contains("2 package(s)"), "states how many: {msg}");
}

#[test]
fn excluded_everywhere_caps_the_inline_list_but_keeps_the_full_count() {
    let packages: Vec<String> = (0..15).map(|i| format!("pkg-{i}@1.0.0")).collect();
    let w = PlatformWarning::ExcludedEverywhere {
        packages: packages.clone(),
        platforms: vec!["linux-x64-gnu".into()],
    };
    let msg = w.message();
    assert!(msg.contains("15 package(s)"), "full count: {msg}");
    for p in &packages[..10] {
        assert!(msg.contains(p.as_str()), "first 10 listed: {msg}");
    }
    for p in &packages[10..] {
        assert!(!msg.contains(p.as_str()), "not listed past the cap: {msg}");
    }
    assert!(msg.contains("…and 5 more"), "{msg}");
}

#[test]
fn exit_codes_are_classified() {
    let cases = vec![
        (
            Failure::Cli(CliError::Unimplemented {
                verb: "vendor".into(),
                stage: "S3".into(),
            }),
            ExitCode::Unimplemented,
        ),
        (
            Failure::Cli(CliError::ConfigExists {
                path: "pudu.toml".into(),
            }),
            ExitCode::Usage,
        ),
        (
            Failure::Cli(CliError::BadDirectory {
                path: "/no/such/dir".into(),
                source: "entity not found".into(),
            }),
            ExitCode::Usage,
        ),
        (
            Failure::Config(ConfigError::NoPlatforms),
            ExitCode::InputInvalid,
        ),
        (
            Failure::Other("disk on fire".to_string()),
            ExitCode::Internal,
        ),
        (
            Failure::Vendor(VendorError::Stale {
                differences: vec!["packages.toml has no entry for `left-pad@1.3.0`".to_string()],
            }),
            ExitCode::Stale,
        ),
        (
            Failure::Vendor(VendorError::NetworkDisabled {
                key: "left-pad@1.3.0".to_string(),
                url: "https://registry.npmjs.org/left-pad/-/left-pad-1.3.0.tgz".to_string(),
            }),
            ExitCode::InputInvalid,
        ),
        (
            Failure::Vendor(VendorError::HttpStatus {
                key: "left-pad@1.3.0".to_string(),
                url: "https://registry.npmjs.org/left-pad/-/left-pad-1.3.0.tgz".to_string(),
                status: 503,
            }),
            ExitCode::Internal,
        ),
        (
            Failure::Vendor(VendorError::CacheUnavailable),
            ExitCode::Internal,
        ),
        (
            Failure::Vendor(VendorError::CacheWriteFailed {
                path: "/read-only/pudu".into(),
                source: "permission denied".into(),
            }),
            ExitCode::Internal,
        ),
    ];
    for (err, want) in cases {
        assert_eq!(exit_code(&err), want, "{err:?}");
    }
}

fn t(s: &str) -> String {
    s.to_string()
}

#[test]
fn lockfile_messages() {
    for (e, want) in [
        (
            LockError::UnsupportedVersion { found: None },
            "unsupported lockfileVersion: absent (pudu supports 9.0)",
        ),
        (
            LockError::UnsupportedVersion { found: Some(t("6.0")) },
            "unsupported lockfileVersion: 6.0 (pudu supports 9.0)",
        ),
        (
            LockError::Yaml { path: t("/l"), source: t("bad") },
            "could not parse /l",
        ),
        (
            LockError::KeyParse { key: t("a"), offset: 1, reason: t("no version") },
            "invalid snapshot key `a` at byte 1: no version",
        ),
        (
            LockError::MissingPackageMeta { snapshot: t("a@1(b@1)"), base: t("a@1") },
            "snapshot `a@1(b@1)` has no entry under `packages:` for `a@1`",
        ),
        (
            LockError::UnresolvedEdge { from: t("a@1"), link_name: t("b"), resolved: t("b@2") },
            "`a@1` depends on `b`, which resolves to `b@2` — absent from `snapshots:`",
        ),
        (
            LockError::TargetNameCollision { a: t("x"), b: t("y"), target: t("z") },
            "`x` and `y` both map to the Buck target name `z`",
        ),
        (
            LockError::PatchedDependencies,
            "this lockfile uses patchedDependencies, which pudu cannot reproduce",
        ),
        (
            LockError::ExcludedLinks,
            "this lockfile was written with excludeLinksFromLockfile: true",
        ),
    ] {
        assert_eq!(e.message(), want);
    }
    assert_eq!(
        LockWarning::UnknownTopLevelKey { key: t("k") }.message(),
        "unrecognised top-level key `k` in the lockfile"
    );
    assert_eq!(
        LockWarning::DeprecatedPackage { key: t("a@1"), message: t("use b") }.message(),
        "`a@1` is deprecated: use b"
    );
}

#[test]
fn vendor_messages() {
    for (e, want) in [
        (
            VendorError::Stale { differences: vec![t("x")] },
            "packages.toml is out of date (1 difference(s))",
        ),
        (
            VendorError::UnsupportedResolution { packages: vec![t("a@1 (git)"), t("b@2 (git)")] },
            "2 package(s) use a dependency source pudu cannot verify: a@1 (git), b@2 (git)",
        ),
        (
            VendorError::IntegrityMismatch {
                key: t("a@1"),
                url: t("u"),
                expected: t("e"),
                actual: t("f"),
            },
            "a@1: tarball does not match the integrity recorded in pnpm-lock.yaml\n  url:      u\n  expected: e\n  actual:   f",
        ),
        (
            VendorError::BadDerivedUrl { key: t("a@1"), name: t("a"), url: t("u") },
            "a@1: derived tarball URL is not a valid URL: u",
        ),
        (
            VendorError::TableMalformed { path: t("p"), reason: t("r") },
            "cannot read p: r",
        ),
        (
            VendorError::HttpStatus { key: t("a@1"), url: t("u"), status: 503 },
            "a@1: u returned HTTP 503",
        ),
        (
            VendorError::NetworkDisabled { key: t("a@1"), url: t("u") },
            "a@1: u is not in the cache and --no-network was given",
        ),
        (
            VendorError::MissingPackageJson { key: t("a@1") },
            "a@1: tarball's root directory contains no package.json",
        ),
    ] {
        assert_eq!(e.message(), want);
    }
    assert_eq!(
        VendorWarning::HasBinDisagreement { key: t("a@1"), lockfile: true, found: 0 }.message(),
        "a@1: pnpm-lock.yaml says hasBin: true, but the tarball yields 0 command(s)"
    );
    assert_eq!(
        VendorWarning::BinNameCollision { key: t("a@1"), name: t("x") }.message(),
        "a@1: two bins named `x`; keeping the last"
    );
}

#[test]
fn command_messages() {
    assert_eq!(
        CliError::Unimplemented { verb: t("audit"), stage: t("later") }.message(),
        "pudu audit is not implemented yet (planned for later)"
    );
    assert_eq!(
        CliError::ConfigInvalid { count: 3 }.message(),
        "3 error(s) in pudu.toml"
    );
    assert!(CliError::ConfigInvalid { count: 3 }.already_reported());
    assert!(!CliError::ConfigExists { path: t("p") }.already_reported());
    assert_eq!(
        DeriveError::AxisNotASequence { key: t("os"), example: t("linux") }.message(),
        "pnpm-workspace.yaml: supportedArchitectures.os must be a list, e.g. `os: [linux]`"
    );
    assert_eq!(
        DeriveError::NoUsablePlatforms { axis: "os", warnings: vec![] }.message(),
        "pnpm-workspace.yaml declares no supported platforms pudu can target (the `os` axis of `supportedArchitectures` resolved to nothing usable)"
    );
    assert_eq!(
        DeriveWarning::UnknownCpu { value: t("mips") }.message(),
        "pnpm-workspace.yaml: ignoring unknown cpu `mips`"
    );
    assert_eq!(
        InitWarning::ExistingToolchain { path: t("p"), name: t("n"), recorded: t("r") }.message(),
        "p already declares a node toolchain (`:n`); leaving it alone"
    );
    assert_eq!(
        ConfigWarning::SinglePlatform { name: t("a") }.message(),
        "only one platform is configured (`a`); generated rules will not vary by platform"
    );
    assert_eq!(
        BuckError::UnrepresentableBinName { package: t("a@1"), name: t("x y") }.message(),
        "a@1: buck2 cannot address the bin name `x y`"
    );
}

#[test]
fn causes_follow_the_message() {
    assert_eq!(full_message("a", &vec![]), "a");
    assert_eq!(full_message("a", &vec![t("b"), t("c")]), "a: b: c");
}

#[test]
fn a_list_is_cut_short_behind_its_cap() {
    assert_eq!(capped_list(&vec![t("a"), t("b")], 2), "a, b");
    assert_eq!(capped_list(&vec![t("a"), t("b"), t("c")], 2), "a, b, …and 1 more");
    assert_eq!(capped_list(&vec![], 2), "");
}

#[test]
fn help_for_a_refused_request() {
    assert!(http_help(401).contains("authentication is not implemented yet"));
    assert_eq!(http_help(401), http_help(403));
    assert!(http_help(404).contains("unpublished"));
    assert!(http_help(500).contains("already retried"));
}
