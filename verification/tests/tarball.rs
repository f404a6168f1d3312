//! Tarball verification and inspection.

use std::io::Write;

use base64::Engine;
use pudu::dict::Dict;
use pudu::error::{VendorError, VendorWarning};
use pudu::tarball::{sha512_digest, verify_and_inspect, Verified};

fn dict(pairs: Vec<(String, String)>) -> Dict<String> {
    let mut d = Dict::new();
    for (k, v) in pairs {
        d.insert(k, v);
    }
    d
}

const URL: &str = "https://registry.example/p/-/p-1.0.0.tgz";

fn tarball(files: &[(&str, &str)]) -> Vec<u8> {
    rooted_tarball("package", files)
}

fn rooted_tarball(root: &str, files: &[(&str, &str)]) -> Vec<u8> {
    let mut ar = tar::Builder::new(Vec::new());
    for (path, body) in files {
        let mut h = tar::Header::new_gnu();
        h.set_size(body.len() as u64);
        h.set_mode(0o644);
        h.set_cksum();
        ar.append_data(&mut h, format!("{root}/{path}"), body.as_bytes())
            .unwrap();
    }
    let tar_bytes = ar.into_inner().unwrap();
    let mut gz = flate2::write::GzEncoder::new(Vec::new(), flate2::Compression::default());
    gz.write_all(&tar_bytes).unwrap();
    gz.finish().unwrap()
}

fn integrity_of(bytes: &[u8]) -> String {
    format!(
        "sha512-{}",
        base64::engine::general_purpose::STANDARD.encode(sha512_digest(bytes))
    )
}

fn inspect(files: &[(&str, &str)]) -> Verified {
    let bytes = tarball(files);
    let i = integrity_of(&bytes);
    verify_and_inspect("p@1.0.0", "p", URL, &bytes, &i)
        .unwrap()
        .0
}

fn inspect_rooted(root: &str, files: &[(&str, &str)]) -> Verified {
    let bytes = rooted_tarball(root, files);
    let i = integrity_of(&bytes);
    verify_and_inspect("p@1.0.0", "p", URL, &bytes, &i)
        .unwrap()
        .0
}

#[test]
fn a_matching_integrity_verifies() {
    let v = inspect(&[("package.json", r#"{"name":"p"}"#)]);
    assert_eq!(v.inspection.root, "package", "the usual npm shape");
    assert_eq!(v.sha256.len(), 64, "sha256 is 32 bytes of lowercase hex");
    assert!(
        v.sha256
            .chars()
            .all(|c| c.is_ascii_hexdigit() && !c.is_uppercase())
    );
}

#[test]
fn size_is_the_compressed_byte_count() {
    let bytes = tarball(&[("package.json", r#"{"name":"p"}"#)]);
    let i = integrity_of(&bytes);
    let (v, _) = verify_and_inspect("p@1.0.0", "p", URL, &bytes, &i).unwrap();
    assert_eq!(v.size, bytes.len() as u64);
}

#[test]
fn a_mismatched_integrity_names_both_hashes() {
    let bytes = tarball(&[("package.json", r#"{"name":"p"}"#)]);
    let wrong = integrity_of(b"different bytes entirely");
    let err = verify_and_inspect("p@1.0.0", "p", URL, &bytes, &wrong).unwrap_err();
    let VendorError::IntegrityMismatch {
        expected,
        actual,
        key,
        url,
    } = &err
    else {
        panic!("wrong variant: {err:?}");
    };
    assert_eq!(key, "p@1.0.0");
    assert_eq!(url, URL, "the error must name the URL it fetched");
    assert_eq!(*expected, wrong);
    assert_eq!(*actual, integrity_of(&bytes));
    assert_ne!(expected, actual);
}

#[test]
fn a_consistent_non_package_root_is_accepted() {
    let v = inspect_rooted("estree", &[("package.json", r#"{"name":"@types/estree"}"#)]);
    assert_eq!(v.inspection.bin, dict(vec![]));
    assert_eq!(
        v.inspection.root, "estree",
        "the archive's actual root must be recorded, not assumed to be `package`"
    );
}

#[test]
fn inconsistent_root_directories_are_rejected() {
    let mut ar = tar::Builder::new(Vec::new());
    for (root, path, body) in [
        ("package", "package.json", "{}"),
        ("other", "index.js", "module.exports = 1;\n"),
    ] {
        let mut h = tar::Header::new_gnu();
        h.set_size(body.len() as u64);
        h.set_mode(0o644);
        h.set_cksum();
        ar.append_data(&mut h, format!("{root}/{path}"), body.as_bytes())
            .unwrap();
    }
    let tar_bytes = ar.into_inner().unwrap();
    let mut gz = flate2::write::GzEncoder::new(Vec::new(), flate2::Compression::default());
    gz.write_all(&tar_bytes).unwrap();
    let bytes = gz.finish().unwrap();
    let i = integrity_of(&bytes);
    let err = verify_and_inspect("p@1.0.0", "p", URL, &bytes, &i).unwrap_err();
    let VendorError::MalformedTarball { reason, .. } = &err else {
        panic!("wrong variant: {err:?}");
    };
    assert!(
        reason.contains("package") && reason.contains("other"),
        "the reason must name both roots it found: {reason}"
    );
}

#[test]
fn a_pax_global_header_does_not_poison_the_root_check() {
    let mut ar = tar::Builder::new(Vec::new());
    let mut gh = tar::Header::new_ustar();
    let global = "52 comment=0000000000000000000000000000000000000000\n";
    gh.set_size(global.len() as u64);
    gh.set_entry_type(tar::EntryType::XGlobalHeader);
    gh.set_mode(0o644);
    gh.set_cksum();
    ar.append_data(&mut gh, "pax_global_header", global.as_bytes())
        .unwrap();
    for (path, body) in [("package.json", r#"{"name":"p"}"#), ("index.js", "")] {
        let mut h = tar::Header::new_gnu();
        h.set_size(body.len() as u64);
        h.set_mode(0o644);
        h.set_cksum();
        ar.append_data(&mut h, format!("package/{path}"), body.as_bytes())
            .unwrap();
    }
    let tar_bytes = ar.into_inner().unwrap();
    let mut gz = flate2::write::GzEncoder::new(Vec::new(), flate2::Compression::default());
    gz.write_all(&tar_bytes).unwrap();
    let bytes = gz.finish().unwrap();
    let i = integrity_of(&bytes);

    let (v, _) = verify_and_inspect("p@1.0.0", "p", URL, &bytes, &i)
        .unwrap_or_else(|e| panic!("a pax global header must not be a second root: {e:?}"));
    assert_eq!(v.inspection.bin, dict(vec![]));
    assert_eq!(v.inspection.root, "package");
}

#[test]
fn a_tarball_without_a_manifest_is_rejected() {
    let bytes = tarball(&[("index.js", "module.exports = 1;\n")]);
    let i = integrity_of(&bytes);
    let err = verify_and_inspect("p@1.0.0", "p", URL, &bytes, &i).unwrap_err();
    assert!(
        matches!(err, VendorError::MissingPackageJson { .. }),
        "{err:?}"
    );
}

#[test]
fn unparseable_json_is_a_malformed_tarball_not_a_panic() {
    let bytes = tarball(&[("package.json", "{not json")]);
    let i = integrity_of(&bytes);
    let err = verify_and_inspect("p@1.0.0", "p", URL, &bytes, &i).unwrap_err();
    assert!(
        matches!(err, VendorError::MalformedTarball { .. }),
        "{err:?}"
    );
}

#[test]
fn an_integrity_that_is_not_sha512_is_rejected() {
    let bytes = tarball(&[("package.json", "{}")]);
    for bad in ["sha1-abc", "not-an-integrity", "sha512", "sha512-!!!!"] {
        let err = verify_and_inspect("p@1.0.0", "p", URL, &bytes, bad).unwrap_err();
        assert!(
            matches!(err, VendorError::MalformedIntegrity { .. }),
            "{bad} should be rejected, got {err:?}"
        );
    }
}

#[test]
fn no_scripts_and_no_marker_files_means_no_install_script() {
    let v = inspect(&[
        (
            "package.json",
            r#"{"name":"p","scripts":{"test":"mocha","build":"tsc"}}"#,
        ),
        ("index.js", ""),
    ]);
    assert!(!v.inspection.has_install_script);
}

#[test]
fn each_install_script_key_triggers_on_its_own() {
    for key in ["preinstall", "install", "postinstall"] {
        let json = format!(r#"{{"name":"p","scripts":{{"{key}":"node x.js"}}}}"#);
        let v = inspect(&[("package.json", &json)]);
        assert!(v.inspection.has_install_script, "{key} must trigger");
    }
}

#[test]
fn a_lifecycle_script_that_is_not_an_install_hook_does_not_trigger() {
    let v = inspect(&[(
        "package.json",
        r#"{"name":"p","scripts":{"prepare":"husky","prepublishOnly":"x"}}"#,
    )]);
    assert!(!v.inspection.has_install_script);
}

#[test]
fn an_empty_install_script_does_not_trigger() {
    let v = inspect(&[("package.json", r#"{"name":"p","scripts":{"install":""}}"#)]);
    assert!(!v.inspection.has_install_script);
}

#[test]
fn binding_gyp_triggers_with_no_scripts_at_all() {
    let v = inspect(&[("package.json", r#"{"name":"p"}"#), ("binding.gyp", "{}")]);
    assert!(v.inspection.has_install_script);
}

#[test]
fn binding_gyp_below_the_root_does_not_trigger() {
    let v = inspect(&[
        ("package.json", r#"{"name":"p"}"#),
        ("src/binding.gyp", "{}"),
    ]);
    assert!(!v.inspection.has_install_script);
}

#[test]
fn a_hooks_file_triggers() {
    let v = inspect(&[
        ("package.json", r#"{"name":"p"}"#),
        (".hooks/postinstall", "#!/bin/sh\n"),
    ]);
    assert!(v.inspection.has_install_script);
}

#[test]
fn a_file_merely_starting_with_dot_hooks_does_not_trigger() {
    let v = inspect(&[("package.json", r#"{"name":"p"}"#), (".hooksrc", "{}")]);
    assert!(!v.inspection.has_install_script);
}

fn bins(files: &[(&str, &str)], name: &str) -> Dict<String> {
    let bytes = tarball(files);
    let i = integrity_of(&bytes);
    verify_and_inspect("p@1.0.0", name, URL, &bytes, &i)
        .unwrap()
        .0
        .inspection
        .bin
}

fn bins_with_warnings(
    files: &[(&str, &str)],
    name: &str,
) -> (Dict<String>, Vec<VendorWarning>) {
    let bytes = tarball(files);
    let i = integrity_of(&bytes);
    let (v, w) = verify_and_inspect("p@1.0.0", name, URL, &bytes, &i).unwrap();
    (v.inspection.bin, w)
}

#[test]
fn no_bin_field_yields_no_commands() {
    assert!(bins(&[("package.json", r#"{"name":"p"}"#)], "p").is_empty());
}

#[test]
fn a_string_bin_is_named_after_the_package() {
    let b = bins(&[("package.json", r#"{"name":"p","bin":"cli.js"}"#)], "p");
    assert_eq!(b, dict(vec![("p".to_string(), "cli.js".to_string())]));
}

#[test]
fn a_string_bin_on_a_scoped_package_drops_the_scope() {
    let b = bins(
        &[(
            "package.json",
            r#"{"name":"@babel/parser","bin":"./bin/babel-parser.js"}"#,
        )],
        "@babel/parser",
    );
    assert_eq!(
        b,
        dict(vec![("parser".to_string(), "bin/babel-parser.js".to_string())]),
        "the scope is stripped from the command and `./` from the path"
    );
}

#[test]
fn an_object_bin_keeps_every_key() {
    let b = bins(
        &[(
            "package.json",
            r#"{"name":"p","bin":{"one":"a.js","two":"b/c.js"}}"#,
        )],
        "p",
    );
    assert_eq!(
        b,
        dict(vec![
            ("one".to_string(), "a.js".to_string()),
            ("two".to_string(), "b/c.js".to_string()),
        ])
    );
}

#[test]
fn an_object_bin_key_is_scope_stripped_too() {
    let b = bins(
        &[(
            "package.json",
            r#"{"name":"p","bin":{"@scope/tool":"t.js"}}"#,
        )],
        "p",
    );
    assert_eq!(
        b,
        dict(vec![("tool".to_string(), "t.js".to_string())])
    );
}

#[test]
fn a_name_that_is_not_url_safe_is_dropped_with_a_warning() {
    let (b, w) = bins_with_warnings(
        &[(
            "package.json",
            r#"{"name":"p","bin":{"a b":"x.js","ok":"y.js"}}"#,
        )],
        "p",
    );
    assert_eq!(b, dict(vec![("ok".to_string(), "y.js".to_string())]));
    assert!(
        w.iter()
            .any(|x| matches!(x, VendorWarning::BinNameRejected { name, .. } if name == "a b")),
        "{w:?}"
    );
}

#[test]
fn the_dollar_name_is_exempt_from_the_url_safe_rule() {
    let b = bins(
        &[("package.json", r#"{"name":"p","bin":{"$":"x.js"}}"#)],
        "p",
    );
    assert_eq!(b, dict(vec![("$".to_string(), "x.js".to_string())]));
}

#[test]
fn a_path_escaping_the_package_is_dropped_with_a_warning() {
    let (b, w) = bins_with_warnings(
        &[(
            "package.json",
            r#"{"name":"p","bin":{"evil":"../../../etc/passwd","ok":"y.js"}}"#,
        )],
        "p",
    );
    assert_eq!(b, dict(vec![("ok".to_string(), "y.js".to_string())]));
    assert!(
        w.iter()
            .any(|x| matches!(x, VendorWarning::BinPathEscapes { name, .. } if name == "evil")),
        "{w:?}"
    );
}

#[test]
fn a_path_that_climbs_then_returns_stays_inside() {
    let b = bins(
        &[(
            "package.json",
            r#"{"name":"p","bin":{"ok":"lib/../cli.js"}}"#,
        )],
        "p",
    );
    assert_eq!(
        b,
        dict(vec![("ok".to_string(), "cli.js".to_string())])
    );
}

#[test]
fn a_non_string_bin_value_is_dropped_with_a_warning() {
    let (b, w) = bins_with_warnings(
        &[(
            "package.json",
            r#"{"name":"p","bin":{"bad":42,"ok":"y.js"}}"#,
        )],
        "p",
    );
    assert_eq!(b, dict(vec![("ok".to_string(), "y.js".to_string())]));
    assert!(
        w.iter().any(
            |x| matches!(x, VendorWarning::NonStringBinValue { name, .. } if name == "bad")
        ),
        "{w:?}"
    );
}

#[test]
fn a_bin_field_that_is_neither_string_nor_object_yields_nothing() {
    let b = bins(
        &[
            (
                "package.json",
                r#"{"name":"p","bin":42,"directories":{"bin":"tools"}}"#,
            ),
            ("tools/t.js", ""),
        ],
        "p",
    );
    assert!(b.is_empty(), "{b:?}");
}

#[test]
fn a_zero_bin_field_falls_through_to_directories_bin() {
    let b = bins(
        &[
            (
                "package.json",
                r#"{"name":"p","bin":0,"directories":{"bin":"tools"}}"#,
            ),
            ("tools/t.js", ""),
        ],
        "p",
    );
    assert_eq!(
        b,
        dict(vec![("t.js".to_string(), "tools/t.js".to_string())])
    );
}

#[test]
fn directories_bin_is_walked_recursively_and_keyed_on_basename() {
    let b = bins(
        &[
            (
                "package.json",
                r#"{"name":"p","directories":{"bin":"tools"}}"#,
            ),
            ("tools/one.js", ""),
            ("tools/nested/two.js", ""),
        ],
        "p",
    );
    assert_eq!(
        b,
        dict(vec![
            ("one.js".to_string(), "tools/one.js".to_string()),
            ("two.js".to_string(), "tools/nested/two.js".to_string()),
        ]),
        "nested files collapse to bare basenames"
    );
}

#[test]
fn directories_bin_is_ignored_when_bin_is_present() {
    let b = bins(
        &[
            (
                "package.json",
                r#"{"name":"p","bin":"cli.js","directories":{"bin":"tools"}}"#,
            ),
            ("tools/t.js", ""),
        ],
        "p",
    );
    assert_eq!(b, dict(vec![("p".to_string(), "cli.js".to_string())]));
}

#[test]
fn a_bin_name_collision_keeps_the_last_and_warns() {
    let (b, w) = bins_with_warnings(
        &[
            (
                "package.json",
                r#"{"name":"p","directories":{"bin":"tools"}}"#,
            ),
            ("tools/a/dup.js", "first"),
            ("tools/b/dup.js", "second"),
        ],
        "p",
    );
    assert_eq!(
        b,
        dict(vec![("dup.js".to_string(), "tools/b/dup.js".to_string())]),
        "entries are visited in sorted order, so the last one wins deterministically"
    );
    assert!(
        w.iter().any(
            |x| matches!(x, VendorWarning::BinNameCollision { name, .. } if name == "dup.js")
        ),
        "{w:?}"
    );
}

#[test]
fn a_field_that_is_not_read_may_hold_anything() {
    let deep = format!("{}{}", "[".repeat(500), "]".repeat(500));
    let manifest = format!(
        r#"{{"name":"p","bin":"cli.js","x":1e999,"y":"\\ud800","z":{deep}}}"#
    );
    let bytes = tarball(&[("package.json", &manifest)]);
    let (v, _) = verify_and_inspect("p@1.0.0", "p", "u", &bytes, &integrity_of(&bytes)).unwrap();
    assert_eq!(v.inspection.bin.get("p").unwrap(), "cli.js");
}

#[test]
fn a_field_that_is_read_has_to_make_sense() {
    let bytes = tarball(&[("package.json", r#"{"name":"p","scripts":1e999}"#)]);
    assert!(matches!(
        verify_and_inspect("p@1.0.0", "p", "u", &bytes, &integrity_of(&bytes)),
        Err(VendorError::MalformedTarball { .. })
    ));
}

#[test]
fn a_repeated_field_is_refused() {
    for field in ["bin", "directories", "scripts"] {
        let manifest = format!(r#"{{"name":"p","{field}":{{}},"x":1,"{field}":{{}}}}"#);
        let bytes = tarball(&[("package.json", &manifest)]);
        let e = verify_and_inspect("p@1.0.0", "p", "u", &bytes, &integrity_of(&bytes));
        let Err(VendorError::MalformedTarball { reason, .. }) = e else {
            panic!("{e:?}");
        };
        assert!(
            reason.starts_with(&format!(
                "package.json is not valid JSON: duplicate field `{field}` at line 1 column "
            )),
            "{reason}"
        );
    }
}

/// Why an archive cannot be read, told by walking it once and reading no text but the
/// manifest's.
fn fault_of(bytes: &[u8]) -> Option<String> {
    let mut ar = tar::Archive::new(flate2::read::GzDecoder::new(bytes));
    let entries = match ar.entries() {
        Ok(entries) => entries,
        Err(e) => return Some(format!("cannot read tar entries: {e}")),
    };
    for entry in entries {
        let mut entry = match entry {
            Ok(entry) => entry,
            Err(e) => return Some(format!("cannot read tar entry: {e}")),
        };
        if entry.path().unwrap().ends_with("package.json") {
            let mut s = String::new();
            if let Err(e) = std::io::Read::read_to_string(&mut entry, &mut s) {
                return Some(format!("cannot read package.json: {e}"));
            }
        }
    }
    None
}

#[test]
fn a_broken_archive_is_refused_for_its_first_fault() {
    let noise: String = (0..4000u32)
        .map(|i| char::from(33 + (i.wrapping_mul(2654435761) >> 25) as u8 % 90))
        .collect();
    let whole = tarball(&[
        ("a.js", noise.as_str()),
        ("package.json", r#"{"name":"p"}"#),
        ("z.js", noise.as_str()),
    ]);
    let mut broken: Vec<Vec<u8>> = (1..whole.len())
        .step_by(7)
        .map(|n| whole[..n].to_vec())
        .collect();
    for n in [1, 2, 3, 4, 5, 6, 7, 8] {
        let mut b = whole.clone();
        let at = b.len() - n;
        b[at] ^= 0x55;
        broken.push(b);
    }
    let mut refused = 0;
    for bytes in broken {
        let got = verify_and_inspect("p@1.0.0", "p", "u", &bytes, &integrity_of(&bytes));
        match fault_of(&bytes) {
            Some(want) => {
                refused += 1;
                assert_eq!(
                    got,
                    Err(VendorError::MalformedTarball {
                        key: "p@1.0.0".to_string(),
                        reason: want
                    })
                );
            }
            None => assert!(
                !matches!(got, Err(VendorError::MalformedTarball { .. })),
                "{got:?}"
            ),
        }
    }
    assert!(refused > 100);
}

#[test]
fn only_the_manifest_has_to_be_text() {
    let mut ar = tar::Builder::new(Vec::new());
    for (path, body) in [
        ("package/a.bin", &[0xff, 0xfe, 0x00][..]),
        ("package/package.json", &br#"{"bin":"cli.js"}"#[..]),
        ("package/b/package.json", &[0xff][..]),
    ] {
        let mut h = tar::Header::new_gnu();
        h.set_size(body.len() as u64);
        h.set_mode(0o644);
        h.set_cksum();
        ar.append_data(&mut h, path, body).unwrap();
    }
    let mut gz = flate2::write::GzEncoder::new(Vec::new(), flate2::Compression::default());
    gz.write_all(&ar.into_inner().unwrap()).unwrap();
    let bytes = gz.finish().unwrap();
    let (v, _) = verify_and_inspect("p@1.0.0", "p", "u", &bytes, &integrity_of(&bytes)).unwrap();
    assert_eq!(v.inspection.bin.get("p").unwrap(), "cli.js");
}
