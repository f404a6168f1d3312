//! What holds of the library as a whole, on chosen values.

use pudu::buck::emit::importer_target_name;
use pudu::buck::format::starlark_string;
use pudu::cli::toolchain::{apply, managed_block, AppendOutcome, BEGIN, END};
use pudu::config::Platform;
use pudu::dict::{Dict, NameSet};
use pudu::error::{exit_code, CliError, ConfigError, ExitCode, Failure, LockError, VendorError};
use pudu::lock::snapshot_key::{hashed_name, target_name, SnapshotKey, MAX_LEN_WITHOUT_HASH};
use pudu::lock::{accept_lockfile, Probe, RawVersion, SUPPORTED_VERSION};
use pudu::paths::{contained_path, join_path, plain_path};
use pudu::platform::constraints::constraint_labels;
use pudu::platform::matching::admits;
use pudu::platform::{Cpu, Libc, Os};
use pudu::tarball::{check_digest, decode_integrity, encode_integrity, hex, list_members, Member};
use pudu::text::{count, decimal, find, join, precedes, split, strip_prefix, trim, trim_end};

fn texts(items: &[&str]) -> Vec<String> {
    items.iter().map(|s| s.to_string()).collect()
}

#[test]
fn a_key_is_spelled_back_as_it_was_read() {
    for key in ["a@1", "@s/a@1.0.0(b@2)(@s/c@3(d@4))", "a@1.0.0-rc.1+build"] {
        assert_eq!(SnapshotKey::parse(key).unwrap().canonical(), key);
    }
}

#[test]
fn spelling_a_parsed_key_is_stable() {
    let first = SnapshotKey::parse("a@1(b@1)").unwrap();
    assert_eq!(SnapshotKey::parse(&first.canonical()), Ok(first));
}

#[test]
fn target_names_hold_no_slash_and_are_short() {
    assert_eq!(target_name("@s/a@1.0.0(b@2)"), "@s+a@1.0.0_b@2");
    let long = format!("a@1.0.0{}", "(peer@1.2.3)".repeat(40));
    let name = target_name(&long);
    assert_eq!(name.len(), MAX_LEN_WITHOUT_HASH);
    assert!(!name.contains('/') && !name.contains('('));
    let (head, digest) = name.split_at(MAX_LEN_WITHOUT_HASH - 32);
    assert!(head.starts_with("a@1.0.0_peer@1.2.3_peer"));
    assert!(head.ends_with('_'));
    assert!(digest.chars().all(|c| c.is_ascii_hexdigit()));
    let other = target_name(&format!("{long}(last@1.0.0)"));
    assert_eq!(other.len(), MAX_LEN_WITHOUT_HASH);
    assert_ne!(other, name);
}

#[test]
fn a_hashed_name_keeps_the_start_and_half_the_digest() {
    let digest = vec![0xabu8; 32];
    let name = hashed_name("short", &digest);
    assert_eq!(name, format!("short_{}", "ab".repeat(16)));
}

#[test]
fn a_name_in_upper_case_is_hashed() {
    let name = target_name("Upper@1.0.0");
    assert!(name.starts_with("Upper@1.0.0_"));
    assert_eq!(name.len(), "Upper@1.0.0_".len() + 32);
}

#[test]
fn only_the_supported_version_is_accepted() {
    assert_eq!(SUPPORTED_VERSION, "9.0");
    let probe = |text: &str| {
        Ok(Probe {
            lockfile_version: Some(RawVersion::Str(text.to_string())),
            patched_dependencies: None,
        })
    };
    assert_eq!(
        accept_lockfile("l", probe("6.0"), Err("unread".to_string())).unwrap_err(),
        LockError::UnsupportedVersion {
            found: Some("6.0".to_string())
        }
    );
    assert_eq!(
        accept_lockfile("l", probe("9.0"), Err("bad body".to_string())).unwrap_err(),
        LockError::Yaml {
            path: "l".to_string(),
            source: "bad body".to_string()
        }
    );
}

#[test]
fn a_numeric_version_is_written_with_a_fraction() {
    let number = |text: &str, finite: bool| RawVersion::Num {
        text: text.to_string(),
        finite,
    };
    assert_eq!(number("9", true).normalize(), "9.0");
    assert_eq!(number("5.4", true).normalize(), "5.4");
    assert_eq!(RawVersion::Str("9.0".to_string()).normalize(), "9.0");
}

#[test]
fn silence_admits_and_negation_never_widens() {
    assert!(admits(None, "linux"));
    assert!(admits(Some(&texts(&["linux"])), "linux"));
    assert!(!admits(Some(&texts(&["linux", "!linux"])), "linux"));
    assert!(!admits(Some(&texts(&["darwin", "!win32"])), "linux"));
    assert!(admits(Some(&texts(&["!win32"])), "linux"));
}

#[test]
fn the_abi_label_is_used_where_two_platforms_differ_in_libc_alone() {
    let linux = |libc| Platform {
        os: Os::Linux,
        cpu: Cpu::X64,
        libc: Some(libc),
        constraints: None,
    };
    let mut both = Dict::new();
    both.insert("g".to_string(), linux(Libc::Glibc));
    both.insert("m".to_string(), linux(Libc::Musl));
    let mut alone = Dict::new();
    alone.insert("g".to_string(), linux(Libc::Glibc));
    let g = constraint_labels(&linux(Libc::Glibc), &both);
    let m = constraint_labels(&linux(Libc::Musl), &both);
    assert_eq!(g.len(), 3);
    assert_eq!(m.len(), 3);
    assert_ne!(g, m);
    assert_eq!(constraint_labels(&linux(Libc::Glibc), &alone).len(), 2);
}

#[test]
fn a_literal_stays_on_one_line() {
    assert_eq!(
        starlark_string("a\"b\\c\nd\te\rf"),
        "\"a\\\"b\\\\c\\nd\\te\\rf\""
    );
}

#[test]
fn applying_twice_is_applying_once() {
    let block = managed_block("root//tp:toolchains.bzl");
    assert!(block.starts_with(BEGIN));
    assert!(block.contains(END));
    let (first, outcome) = apply(Some("keep = 1\n"), &block, false);
    assert_eq!(outcome, AppendOutcome::Appended);
    let first = first.unwrap();
    assert!(first.starts_with("keep = 1\n"));
    let (second, outcome) = apply(Some(&first), &block, true);
    assert_eq!(second, None);
    assert_eq!(outcome, AppendOutcome::AlreadyManaged);
}

#[test]
fn a_digest_survives_its_spelling() {
    let digest: Vec<u8> = (0..64).collect();
    let spelled = encode_integrity(&digest);
    assert!(spelled.starts_with("sha512-AAECAwQF"));
    assert_eq!(decode_integrity("a@1", &spelled), Ok(digest.clone()));
    assert_eq!(
        check_digest("a@1", &spelled, Some(digest.clone())),
        Ok(digest)
    );
    assert!(check_digest("a@1", &spelled, Some(vec![0u8; 63])).is_err());
    assert!(check_digest("a@1", &spelled, None).is_err());
}

#[test]
fn a_digest_of_another_length_is_malformed() {
    for bad in ["sha512-AAEC", "sha512-", "sha512-!!!!", "md5-AAEC", ""] {
        assert_eq!(
            decode_integrity("a@1", bad),
            Err(VendorError::MalformedIntegrity {
                key: "a@1".to_string(),
                integrity: bad.to_string()
            }),
            "{bad}"
        );
    }
}

#[test]
fn digits_of_bytes() {
    assert_eq!(hex(&vec![0x00, 0x0f, 0xa0, 0xff]), "000fa0ff");
    assert_eq!(hex(&vec![]), "");
}

#[test]
fn a_path_that_stays_inside_has_no_dots() {
    for (given, want) in [("./a/b", "a/b"), ("a/../b", "b"), ("a//b/.", "a/b")] {
        let inside = contained_path(given).unwrap();
        assert_eq!(inside, want);
        assert!(plain_path(&inside));
    }
    assert_eq!(contained_path("../a"), None);
    assert_eq!(contained_path("a/../../b"), None);
    assert_eq!(join_path("/a/", "b"), "/a/b");
    assert_eq!(join_path("a", "b"), "a/b");
}

#[test]
fn no_failure_exits_with_success() {
    let path = || "p".to_string();
    let failures = vec![
        Failure::Cli(CliError::ConfigExists { path: path() }),
        Failure::Cli(CliError::Unimplemented {
            verb: path(),
            stage: path(),
        }),
        Failure::Config(ConfigError::NoPlatforms),
        Failure::Lock(LockError::ExcludedLinks),
        Failure::Vendor(VendorError::Stale {
            differences: vec![],
        }),
        Failure::Vendor(VendorError::CacheUnavailable),
        Failure::Other(path()),
    ];
    let codes: Vec<i32> = failures.iter().map(|f| exit_code(f).as_i32()).collect();
    assert_eq!(codes, vec![2, 4, 3, 3, 5, 1, 1]);
    assert_eq!(ExitCode::Success.as_i32(), 0);
}

#[test]
fn importers_have_readable_target_names() {
    assert_eq!(importer_target_name("."), "root");
    assert_eq!(importer_target_name("packages/server"), "packages_server");
}

#[test]
fn a_table_is_kept_in_order() {
    let mut d = Dict::new();
    for k in ["b", "a", "c", "a"] {
        d.insert(k.to_string(), k.len());
    }
    let keys: Vec<&str> = (0..d.len()).map(|i| d.key(i).as_str()).collect();
    assert_eq!(keys, vec!["a", "b", "c"]);
    let mut s = NameSet::new();
    for k in ["z", "\u{1F600}", "\u{FFFD}", "z"] {
        s.insert(k.to_string());
    }
    assert_eq!(s.to_list(), texts(&["z", "\u{FFFD}", "\u{1F600}"]));
    assert!(precedes("a", "ab") && precedes("ab", "b") && !precedes("b", "b"));
}

#[test]
fn texts_are_split_and_joined() {
    assert_eq!(split("a//b", '/'), texts(&["a", "", "b"]));
    assert_eq!(split("", '/'), texts(&[""]));
    assert_eq!(join(&texts(&["a", "b", "c"]), ", "), "a, b, c");
    assert_eq!(decimal(0), "0");
    assert_eq!(decimal(18446744073709551615), "18446744073709551615");
    assert_eq!(strip_prefix("@scope", "@"), Some("scope".to_string()));
    assert_eq!(strip_prefix("scope", "@"), None);
    let chars = |s: &str| -> Vec<char> { s.chars().collect() };
    assert_eq!(find(&chars("a--b--"), 6, &chars("--"), 0), Some(1));
    assert_eq!(find(&chars("a--b--"), 5, &chars("--"), 2), None);
    assert_eq!(count(&chars("aaaa"), &chars("aa")), 2);
    assert_eq!(trim(" \t a b\u{a0}\n"), "a b");
    assert_eq!(trim_end("a//", '/'), "a");
}

#[test]
fn an_archive_has_one_root_and_a_sorted_list() {
    let member = |path: &str, text: &str| Member::Entry {
        is_file: true,
        is_dir: false,
        path: Ok(path.to_string()),
        text: Ok(text.to_string()),
    };
    let listing = list_members(
        "a@1",
        &vec![
            member("r/package.json", "{}"),
            member("r/d/c", ""),
            member("r/a", ""),
        ],
    )
    .unwrap();
    assert_eq!(listing.root, "r");
    assert_eq!(listing.manifest, "{}");
    assert_eq!(listing.entries, texts(&["a", "d/c", "package.json"]));
    assert!(list_members("a@1", &vec![member("r/package.json", "{}"), member("s/a", "")]).is_err());
    assert_eq!(
        list_members("a@1", &vec![member("r/a", "")]),
        Err(VendorError::MissingPackageJson {
            key: "a@1".to_string()
        })
    );
    assert_eq!(
        list_members(
            "a@1",
            &vec![Member::Entry {
                is_file: true,
                is_dir: false,
                path: Err("no text".to_string()),
                text: Ok(String::new()),
            }]
        ),
        Err(VendorError::MalformedTarball {
            key: "a@1".to_string(),
            reason: "cannot read entry path: no text".to_string()
        })
    );
    assert!(matches!(
        list_members("a@1", &vec![Member::Unreadable("cut off".to_string())]),
        Err(VendorError::MalformedTarball { .. })
    ));
}
