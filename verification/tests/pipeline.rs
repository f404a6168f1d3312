//! From a lockfile to the generated files.

use std::io::Write;

use base64::Engine;
use pudu::buck::{generate, third_party_label, trees_of, OnDisk};
use pudu::cli::buckify::{produce, up_to_date_line, wrote_line};
use pudu::cli::debug::{platforms as report, print_graph, reports_text};
use pudu::cli::vendor::{
    check_table, collect, conclude, failed_line, has_bin_warning, make_entry, prepare, split_requests, vendored_line,
    Prepared,
};
use pudu::config::{Platform, RegistryConfig, Url};
use pudu::dict::{Dict, NameSet};
use pudu::error::{exit_code, BuckError, ExitCode, Failure, VendorError, VendorWarning};
use pudu::fetch::{settle, Stats};
use pudu::lock::types::{
    Importer, ImporterDep, Lockfile, PackageMeta, Resolution, Settings, SnapshotEntry,
};
use pudu::packages::{staleness, Entry, Loaded, PackageTable};
use pudu::platform::{Cpu, Libc, Os};
use pudu::tarball::{encode_integrity, hex, sha512_digest};
use sha2::Digest;

fn tarball(manifest: &str) -> Vec<u8> {
    let mut ar = tar::Builder::new(Vec::new());
    let mut h = tar::Header::new_gnu();
    h.set_size(manifest.len() as u64);
    h.set_mode(0o644);
    h.set_cksum();
    ar.append_data(&mut h, "package/package.json", manifest.as_bytes())
        .unwrap();
    let bytes = ar.into_inner().unwrap();
    let mut gz = flate2::write::GzEncoder::new(Vec::new(), flate2::Compression::default());
    gz.write_all(&bytes).unwrap();
    gz.finish().unwrap()
}

fn integrity_of(bytes: &[u8]) -> String {
    format!(
        "sha512-{}",
        base64::engine::general_purpose::STANDARD.encode(sha512_digest(bytes))
    )
}

fn left() -> Vec<u8> {
    tarball(r#"{"name":"left","bin":"cli.js"}"#)
}

fn right() -> Vec<u8> {
    tarball(r#"{"name":"@s/right"}"#)
}

fn meta(integrity: String) -> PackageMeta {
    PackageMeta {
        resolution: Resolution::Integrity { integrity },
        engines: Dict::new(),
        os: None,
        cpu: None,
        libc: None,
        has_bin: false,
        deprecated: None,
        peer_dependencies: Dict::new(),
        peer_dependencies_meta: Dict::new(),
        bundled_dependencies: Vec::new(),
    }
}

fn snapshot(dependencies: &[(&str, &str)]) -> SnapshotEntry {
    let mut d = Dict::new();
    for (name, version) in dependencies {
        d.insert(name.to_string(), version.to_string());
    }
    SnapshotEntry {
        dependencies: d,
        optional_dependencies: Dict::new(),
        optional: false,
        transitive_peer_dependencies: Vec::new(),
    }
}

/// `.` depends on `left`, which depends on `@s/right`.
fn lockfile() -> Lockfile {
    let mut dependencies = Dict::new();
    dependencies.insert(
        "left".to_string(),
        ImporterDep {
            specifier: "^1.0.0".to_string(),
            version: "1.0.0".to_string(),
        },
    );
    let mut importers = Dict::new();
    importers.insert(
        ".".to_string(),
        Importer {
            dependencies,
            dev_dependencies: Dict::new(),
            optional_dependencies: Dict::new(),
        },
    );
    let mut packages = Dict::new();
    packages.insert("left@1.0.0".to_string(), meta(integrity_of(&left())));
    packages.insert("@s/right@2.0.0".to_string(), meta(integrity_of(&right())));
    let mut snapshots = Dict::new();
    snapshots.insert("left@1.0.0".to_string(), snapshot(&[("@s/right", "2.0.0")]));
    snapshots.insert("@s/right@2.0.0".to_string(), snapshot(&[]));
    Lockfile {
        lockfile_version: "9.0".to_string(),
        settings: Settings {
            auto_install_peers: true,
            exclude_links_from_lockfile: false,
        },
        importers,
        packages,
        snapshots,
    }
}

fn platforms() -> Dict<Platform> {
    let mut d = Dict::new();
    d.insert(
        "linux-x64-gnu".to_string(),
        Platform {
            os: Os::Linux,
            cpu: Cpu::X64,
            libc: Some(Libc::Glibc),
            constraints: None,
        },
    );
    d
}

fn registry() -> RegistryConfig {
    let mut scopes = Dict::new();
    scopes.insert("@s".to_string(), Url::parse("https://s.example").unwrap());
    RegistryConfig {
        default: Url::parse("https://registry.npmjs.org").unwrap(),
        scopes,
    }
}

fn prepared() -> Prepared {
    prepare(&lockfile(), &platforms(), &registry()).unwrap()
}

fn all_entries(p: &Prepared) -> Dict<Entry> {
    let (kept, fetched) = split_requests(&p.plan.requests, &Dict::new());
    let results = fetched
        .iter()
        .map(|req| {
            let bytes = if req.name == "left" { left() } else { right() };
            (req.key.clone(), settle(req, &bytes, true).0)
        })
        .collect();
    let collected = collect(kept, results, &p.plan);
    assert!(collected.failures.is_empty(), "{:?}", collected.failures);
    collected.entries
}

#[test]
fn a_lockfile_is_prepared_for_vendoring() {
    let p = prepared();
    assert_eq!(p.graph.nodes.len(), 2);
    assert!(p.warnings.is_empty());
    assert_eq!(p.plan.requests.len(), 2);
    let left = p.plan.requests.get("left@1.0.0").unwrap();
    assert_eq!(left.url, "https://registry.npmjs.org/left/-/left-1.0.0.tgz");
    let right = p.plan.requests.get("@s/right@2.0.0").unwrap();
    assert_eq!(right.url, "https://s.example/@s/right/-/right-2.0.0.tgz");
}

#[test]
fn a_lockfile_without_metadata_cannot_be_prepared() {
    let mut l = lockfile();
    l.packages = Dict::new();
    let e = prepare(&l, &platforms(), &registry()).map(|_| ()).unwrap_err();
    assert!(matches!(e, Failure::Lock(_)), "{e:?}");
    assert_eq!(exit_code(&e), ExitCode::InputInvalid);
}

#[test]
fn a_directory_cannot_be_prepared() {
    let mut l = lockfile();
    let mut m = meta(String::new());
    m.resolution = Resolution::Directory {
        directory: "../left".to_string(),
        kind: "directory".to_string(),
    };
    l.packages.insert("left@1.0.0".to_string(), m);
    let e = prepare(&l, &platforms(), &registry()).map(|_| ()).unwrap_err();
    assert!(
        matches!(e, Failure::Vendor(VendorError::UnsupportedResolution { .. })),
        "{e:?}"
    );
}

#[test]
fn a_second_run_fetches_nothing() {
    let p = prepared();
    let entries = all_entries(&p);
    assert_eq!(entries.len(), 2);
    let (carried, fetched) = split_requests(&p.plan.requests, &entries);
    assert!(fetched.is_empty());
    assert_eq!(carried, entries);
}

#[test]
fn a_changed_package_alone_is_fetched_again() {
    let p = prepared();
    let mut entries = all_entries(&p);
    let mut changed = all_entries(&p);
    let mut other = p.plan.requests.get("left@1.0.0").map(|r| r.url.clone()).unwrap();
    other.push_str("?old");
    let e = changed.get("left@1.0.0").unwrap();
    entries.insert(
        "left@1.0.0".to_string(),
        Entry {
            url: other,
            sha512: e.sha512.clone(),
            sha256: e.sha256.clone(),
            size: e.size,
            root: e.root.clone(),
            bin: Dict::new(),
            has_install_script: e.has_install_script,
        },
    );
    let (carried, fetched) = split_requests(&p.plan.requests, &entries);
    assert_eq!(carried.len(), 1);
    assert!(carried.contains_key("@s/right@2.0.0"));
    assert_eq!(fetched.len(), 1);
    assert_eq!(fetched[0].key, "left@1.0.0");
    changed = entries;
    assert_eq!(
        staleness(
            &p.plan.expected,
            &Loaded::Present(PackageTable { entries: changed })
        )
        .len(),
        1
    );
}

#[test]
fn an_entry_records_what_was_expected_and_what_was_found() {
    let p = prepared();
    let entries = all_entries(&p);
    let e = entries.get("left@1.0.0").unwrap();
    assert_eq!(e.sha512, integrity_of(&left()));
    assert_eq!(e.size, left().len() as u64);
    assert_eq!(e.sha256, hex(&sha2::Sha256::digest(left())));
    assert_eq!(e.root, "package");
    assert_eq!(e.bin.get("left").unwrap(), "cli.js");
    assert!(!e.has_install_script);

    let req = p.plan.requests.get("left@1.0.0").unwrap();
    let (verified, _) = settle(req, &left(), true).0.unwrap();
    let want = p.plan.expected.get("left@1.0.0").unwrap();
    assert_eq!(&make_entry(want, verified), e);
}

#[test]
fn disagreement_on_commands_is_a_warning_and_a_failure_leaves_no_entry() {
    let p = prepared();
    let l = p.plan.requests.get("left@1.0.0").unwrap();
    let r = p.plan.requests.get("@s/right@2.0.0").unwrap();
    let results = vec![
        (l.key.clone(), settle(l, &left(), true).0),
        (r.key.clone(), settle(r, &left(), true).0),
    ];
    let collected = collect(Dict::new(), results, &p.plan);
    assert_eq!(collected.entries.len(), 1);
    assert!(collected.entries.contains_key("left@1.0.0"));
    assert_eq!(
        collected.warnings,
        vec![VendorWarning::HasBinDisagreement {
            key: "left@1.0.0".to_string(),
            lockfile: false,
            found: 1,
        }]
    );
    assert_eq!(collected.failures.len(), 1);
    assert!(matches!(
        &collected.failures[0],
        VendorError::IntegrityMismatch { key, .. } if key == "@s/right@2.0.0"
    ));
}

#[test]
fn flags_that_agree_are_silent() {
    assert_eq!(has_bin_warning("a@1", true, 2), None);
    assert_eq!(has_bin_warning("a@1", false, 0), None);
    assert_eq!(
        has_bin_warning("a@1", true, 0),
        Some(VendorWarning::HasBinDisagreement {
            key: "a@1".to_string(),
            lockfile: true,
            found: 0
        })
    );
}

#[test]
fn an_up_to_date_table_has_no_differences() {
    let p = prepared();
    let table = PackageTable {
        entries: all_entries(&p),
    };
    assert!(staleness(&p.plan.expected, &Loaded::Present(table)).is_empty());
}

#[test]
fn an_absent_table_lacks_every_package() {
    let p = prepared();
    let want = vec![
        "packages.toml has no entry for `@s/right@2.0.0`".to_string(),
        "packages.toml has no entry for `left@1.0.0`".to_string(),
    ];
    assert_eq!(staleness(&p.plan.expected, &Loaded::Absent), want);
    assert_eq!(
        staleness(&p.plan.expected, &Loaded::WrongVersion("0".to_string())),
        want
    );
}

#[test]
fn the_tree_links_what_is_depended_on() {
    let p = prepared();
    let entries = all_entries(&p);
    let mut nodes = NameSet::new();
    for i in 0..p.graph.nodes.len() {
        nodes.insert(p.graph.nodes.key(i).clone());
    }
    let trees = trees_of(&p.graph, &nodes, &entries);
    assert_eq!(trees.len(), 1);
    let tree = trees.get(".").unwrap();
    assert_eq!(
        tree.copies
            .get(".pnpm/@s+right@2.0.0/node_modules/@s/right")
            .unwrap(),
        "@s/right@2.0.0"
    );
    assert_eq!(
        tree.links.get("left").unwrap(),
        ".pnpm/left@1.0.0/node_modules/left"
    );
    assert_eq!(
        tree.links
            .get(".pnpm/left@1.0.0/node_modules/@s/right")
            .unwrap(),
        "../../../@s+right@2.0.0/node_modules/@s/right"
    );
    assert!(!tree.links.contains_key("@s/right"));
}

#[test]
fn generated_files_go_stale_one_by_one() {
    let p = prepared();
    let entries = all_entries(&p);
    let mut nodes = NameSet::new();
    for i in 0..p.graph.nodes.len() {
        nodes.insert(p.graph.nodes.key(i).clone());
    }
    let trees = trees_of(&p.graph, &nodes, &entries);
    let files = generate(&entries, &trees, &platforms(), "third-party/js").unwrap();
    let mut disk = OnDisk {
        buck: Some(files.buck.clone()),
        bzl: Some(files.bzl.clone()),
        config: Some(files.config.clone()),
    };
    assert!(files.stale(&disk).is_empty());
    disk.bzl = Some("edited".to_string());
    assert_eq!(files.stale(&disk), vec!["pudu.bzl".to_string()]);
    let none = OnDisk {
        buck: None,
        bzl: None,
        config: None,
    };
    assert_eq!(files.stale(&none).len(), 3);
}

#[test]
fn the_third_party_directory_is_a_plain_path() {
    assert_eq!(third_party_label("third-party/js"), Ok("third-party/js".to_string()));
    for bad in ["", "/abs", "a/../b", "./a", "a//b"] {
        assert_eq!(
            third_party_label(bad),
            Err(BuckError::UnusableThirdPartyDir {
                path: bad.to_string()
            }),
            "{bad}"
        );
        assert!(generate(&Dict::new(), &Dict::new(), &Dict::new(), bad).is_err());
    }
}

#[test]
fn an_integrity_is_the_digest_in_base_64() {
    assert_eq!(
        encode_integrity(&sha512_digest(b"abc")),
        "sha512-3a81oZNherrMQXNJriBBMRLm+k6JqX6iCp7u5ktV05ohkpkqJ0/BqDa6PCOj/uu9RU1EI2Q86A4qmslPpUyknw=="
    );
}

#[test]
fn nothing_is_rendered_from_a_stale_table() {
    let p = prepared();
    let e = produce(&p, &Loaded::Absent, &platforms(), "third-party/js").unwrap_err();
    assert_eq!(exit_code(&e), ExitCode::Stale);
    let Failure::Vendor(VendorError::Stale { differences }) = e else {
        panic!("{e:?}");
    };
    assert_eq!(differences.len(), 2);
}

#[test]
fn a_current_table_is_rendered() {
    let p = prepared();
    let loaded = Loaded::Present(PackageTable {
        entries: all_entries(&p),
    });
    assert_eq!(check_table(&p.plan, &loaded), Ok(()));
    let files = produce(&p, &loaded, &platforms(), "third-party/js").unwrap();
    assert!(files.buck.starts_with("##\n## @generated by pudu\n## Do not edit by hand.\n##\n"));
    assert!(files.buck.contains("name = \"left@1.0.0\","));
    assert!(files.buck.contains("name = \"@s+right@2.0.0\","));
    assert_eq!(files, produce(&p, &loaded, &platforms(), "third-party/js").unwrap());
    let e = produce(&p, &loaded, &platforms(), "/abs").unwrap_err();
    assert_eq!(
        e,
        Failure::Buck(BuckError::UnusableThirdPartyDir {
            path: "/abs".to_string()
        })
    );
    assert_eq!(exit_code(&e), ExitCode::InputInvalid);
}

#[test]
fn a_lockfile_without_packages_renders_an_empty_file() {
    let mut l = lockfile();
    l.importers = Dict::new();
    l.packages = Dict::new();
    l.snapshots = Dict::new();
    let p = prepare(&l, &platforms(), &registry()).unwrap();
    let files = produce(&p, &Loaded::Absent, &platforms(), "third-party/js").unwrap();
    assert!(files.buck.starts_with("##\n## @generated by pudu\n"));
    assert!(!files.buck.contains("npm_package("));
}

#[test]
fn a_stale_file_is_named_by_its_path() {
    let p = prepared();
    let loaded = Loaded::Present(PackageTable {
        entries: all_entries(&p),
    });
    let files = produce(&p, &loaded, &platforms(), "third-party/js").unwrap();
    let mut disk = OnDisk {
        buck: Some("# edited\n".to_string()),
        bzl: Some(files.bzl.clone()),
        config: None,
    };
    let e = files.check(&disk, "/repo/third-party/js").unwrap_err();
    assert_eq!(
        e.message(),
        "2 generated file(s) are out of date: /repo/third-party/js/BUCK, /repo/third-party/js/config/BUCK"
    );
    assert_eq!(e.exit_code(), ExitCode::Stale);
    disk.buck = Some(files.buck.clone());
    disk.config = Some(files.config.clone());
    assert_eq!(files.check(&disk, "/repo/third-party/js"), Ok(()));
}

#[test]
fn a_platform_is_reported_with_what_survives_there() {
    let p = prepared();
    let (reports, warnings) = report(&p.graph, &platforms());
    assert!(warnings.is_empty());
    assert_eq!(reports.len(), 1);
    let r = &reports[0];
    assert_eq!(r.name, "linux-x64-gnu");
    assert_eq!((r.os, r.cpu, r.libc), ("linux", "x64", Some("glibc")));
    assert_eq!(r.node_count, 2);
    assert!(r.pruned.is_empty() && r.dropped_required_edges.is_empty());
    assert!(!r.constraints_overridden);
    assert_eq!(r.constraints.len(), 2);
}

#[test]
fn lines_that_sum_up() {
    let stats = Stats {
        downloaded: 2,
        cached: 3,
    };
    assert_eq!(
        vendored_line(9, &stats, 4),
        "vendored 9 packages (2 downloaded, 3 cached, 4 unchanged)"
    );
    assert_eq!(
        pudu::cli::vendor::up_to_date_line(9),
        "pudu.lock is up to date (9 packages)"
    );
    assert_eq!(
        up_to_date_line(9),
        "generated files are up to date (9 packages)"
    );
    assert_eq!(
        wrote_line(9),
        "wrote BUCK, pudu.bzl and config/BUCK (9 packages)"
    );
}

#[test]
fn the_graph_is_printed_as_json() {
    let text = print_graph(&lockfile()).unwrap();
    let v: serde_json::Value = serde_json::from_str(&text).unwrap();
    assert_eq!(v["lockfile_version"], "9.0");
    assert_eq!(v["settings"]["autoInstallPeers"], true);
    assert_eq!(v["roots"][0]["link_name"], "left");
    assert_eq!(v["roots"][0]["kind"], "prod");
    assert_eq!(v["nodes"]["left@1.0.0"]["edges"][0]["target"], "@s/right@2.0.0");
    assert_eq!(v["nodes"]["left@1.0.0"]["edges"][0]["kind"], "prod");
    let meta = &v["nodes"]["@s/right@2.0.0"]["meta"];
    assert_eq!(meta["resolution"]["integrity"], integrity_of(&right()));
    assert_eq!(meta["hasBin"], false);
    assert!(meta["os"].is_null());
    assert!(v["cycles"].as_array().unwrap().is_empty());
    let mut broken = lockfile();
    broken.packages = Dict::new();
    assert!(print_graph(&broken).is_err());
}

#[test]
fn platforms_are_printed_as_json() {
    let p = prepared();
    let text = reports_text(&report(&p.graph, &platforms()).0);
    assert_eq!(
        text,
        "{\n  \"platforms\": {\n    \"linux-x64-gnu\": {\n      \"constraints\": [\n        \"prelude//cpu/constraints:x86_64\",\n        \"prelude//os/constraints:linux\"\n      ],\n      \"constraints_overridden\": false,\n      \"cpu\": \"x64\",\n      \"dropped_required_edges\": [],\n      \"libc\": \"glibc\",\n      \"node_count\": 2,\n      \"os\": \"linux\",\n      \"pruned\": []\n    }\n  }\n}"
    );
}

#[test]
fn the_first_failure_decides_and_the_rest_are_announced() {
    let p = prepared();
    let results = |bytes: fn() -> Vec<u8>| {
        let (_, todo) = split_requests(&p.plan.requests, &Dict::new());
        todo.iter()
            .map(|r| (r.key.clone(), settle(r, &bytes(), true).0))
            .collect::<Vec<_>>()
    };
    let failures = conclude(collect(Dict::new(), results(Vec::new), &p.plan)).unwrap_err();
    assert!(matches!(
        &failures.first,
        VendorError::IntegrityMismatch { key, .. } if key == "@s/right@2.0.0"
    ));
    assert_eq!(failures.rest.len(), 1);
    assert_eq!(
        failed_line(2).unwrap(),
        "2 packages failed; the first is reported at the end, the rest follow:"
    );
    let one = conclude(collect(Dict::new(), results(right), &p.plan)).unwrap_err();
    assert!(one.rest.is_empty());
    assert_eq!(failed_line(1), None);
    let table = conclude(collect(all_entries(&p), Vec::new(), &p.plan)).unwrap();
    assert_eq!(table.entries.len(), 2);
}
