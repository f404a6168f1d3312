//! The snapshot-key grammar.

use pudu::lock::snapshot_key::{SnapshotKey, MAX_PEER_DEPTH};

const LONG_REAL_KEY: &str = "@sveltejs/kit@2.50.1(@sveltejs/vite-plugin-svelte@6.2.4(svelte@5.49.1)(vite@7.3.1(@types/node@22.19.7)(jiti@2.6.1)(lightningcss@1.30.2)(terser@5.46.0)))(svelte@5.49.1)(vite@7.3.1(@types/node@22.19.7)(jiti@2.6.1)(lightningcss@1.30.2)(terser@5.46.0))";

#[test]
fn parses_bare_name() {
    let k = SnapshotKey::parse("svelte@5.49.1").unwrap();
    assert_eq!(k.name, "svelte");
    assert_eq!(k.version, "5.49.1");
    assert!(k.peers.is_empty());
}

#[test]
fn parses_scoped_name_without_splitting_on_the_leading_at() {
    let k = SnapshotKey::parse("@babel/core@7.28.6").unwrap();
    assert_eq!(k.name, "@babel/core");
    assert_eq!(k.version, "7.28.6");
}

#[test]
fn parses_single_peer() {
    let k = SnapshotKey::parse("react-dom@18.3.1(react@18.3.1)").unwrap();
    assert_eq!(k.name, "react-dom");
    assert_eq!(k.peers.len(), 1);
    assert_eq!(k.peers[0].name, "react");
    assert_eq!(k.peers[0].version, "18.3.1");
}

#[test]
fn parses_nested_peers() {
    let k = SnapshotKey::parse(
        "eslint-plugin-svelte@3.14.0(eslint@9.39.2(jiti@2.6.1))(svelte@5.49.1)",
    )
    .unwrap();
    assert_eq!(k.name, "eslint-plugin-svelte");
    assert_eq!(k.peers.len(), 2, "two top-level peers, not three");
    assert_eq!(k.peers[0].name, "eslint");
    assert_eq!(k.peers[0].peers.len(), 1, "eslint carries its own peer");
    assert_eq!(k.peers[0].peers[0].name, "jiti");
    assert_eq!(k.peers[1].name, "svelte");
}

#[test]
fn round_trips_the_long_real_key() {
    let k = SnapshotKey::parse(LONG_REAL_KEY).unwrap();
    assert_eq!(k.name, "@sveltejs/kit");
    assert_eq!(k.version, "2.50.1");
    assert_eq!(k.peers.len(), 3);
    assert_eq!(
        k.canonical(),
        LONG_REAL_KEY,
        "canonical() must reproduce the key exactly, peer order included"
    );
}

#[test]
fn base_strips_the_peer_suffix() {
    let k = SnapshotKey::parse(LONG_REAL_KEY).unwrap();
    assert_eq!(k.base(), "@sveltejs/kit@2.50.1");
    let plain = SnapshotKey::parse("svelte@5.49.1").unwrap();
    assert_eq!(plain.base(), "svelte@5.49.1");
}

#[test]
fn peer_order_is_preserved_not_sorted() {
    let k = SnapshotKey::parse("x@1.0.0(b@2.0.0)(a@1.0.0)").unwrap();
    assert_eq!(k.peers[0].name, "b", "must NOT be sorted");
    assert_eq!(k.peers[1].name, "a");
    assert_eq!(k.canonical(), "x@1.0.0(b@2.0.0)(a@1.0.0)");
}

#[test]
fn parses_prerelease_and_build_metadata_versions() {
    assert_eq!(
        SnapshotKey::parse("x@1.0.0-rc.1").unwrap().version,
        "1.0.0-rc.1"
    );
    assert_eq!(
        SnapshotKey::parse("x@1.0.0+build.5").unwrap().version,
        "1.0.0+build.5"
    );
}

#[test]
fn rejects_malformed_keys() {
    for (bad, reason) in [
        ("x@1.0.0(a@1", "unbalanced `(`"),
        ("x@1.0.0)", "unbalanced `)`"),
        ("@1.0.0", "expected `name@version`"),
        ("x@", "empty version"),
        ("noatsign", "expected `name@version`"),
        ("@scope/name", "expected `name@version`"),
        ("", "expected `name@version`"),
    ] {
        let e = SnapshotKey::parse(bad).expect_err(&format!("must reject {bad:?}"));
        assert_eq!(e.reason, reason, "wrong reason for {bad:?}");
    }
}

#[test]
fn error_names_the_key_and_offset() {
    let e = SnapshotKey::parse("x@1.0.0(a@1").unwrap_err();
    assert_eq!(e.key, "x@1.0.0(a@1");
    assert_eq!(e.offset, 11, "offset of the unbalanced `(` at EOF");
}

#[test]
fn nested_peer_error_offset_is_absolute_not_relative() {
    let e = SnapshotKey::parse("x@1.0.0(y@)").unwrap_err();
    assert_eq!(e.key, "x@1.0.0(y@)");
    assert_eq!(e.reason, "empty version");
    assert_eq!(e.offset, 10);
}

#[test]
fn two_level_nested_peer_error_offset_is_absolute() {
    let key = "x@1.0.0(y@1.0.0(z@))";
    let e = SnapshotKey::parse(key).unwrap_err();
    assert_eq!(e.key, key);
    assert_eq!(e.reason, "empty version");
    assert_eq!(e.offset, 18);
}

#[test]
fn peer_nesting_at_the_cap_still_parses() {
    let key = nested_key(MAX_PEER_DEPTH);
    assert!(
        SnapshotKey::parse(&key).is_ok(),
        "nesting exactly at MAX_PEER_DEPTH must still parse"
    );
}

#[test]
fn peer_nesting_past_the_cap_errors_instead_of_hanging() {
    let key = nested_key(MAX_PEER_DEPTH + 1);
    let e = SnapshotKey::parse(&key).unwrap_err();
    assert!(e.reason.contains("depth"), "must name the depth limit: {}",
        e.message());
}

fn nested_key(n: usize) -> String {
    let mut s = "p0@1.0.0".to_string();
    for i in 1..=n {
        s = format!("p{i}@1.0.0({s})");
    }
    s
}

#[test]
fn nothing_may_stand_between_or_behind_the_groups() {
    for (bad, offset) in [
        ("x@1.0.0(a@1.0.0)junk", 16),
        ("x@1(a@1)b@2", 8),
        ("x@1(a@1)-(b@2)", 8),
        ("x@1(a@1(c@1)y)", 12),
    ] {
        let e = SnapshotKey::parse(bad).expect_err(bad);
        assert_eq!(e.reason, "expected `(` or the end of the key", "{bad}");
        assert_eq!(e.offset, offset, "{bad}");
        assert_eq!(e.key, bad);
    }
    assert!(SnapshotKey::parse("x@1(a@1)(b@2)").is_ok());
}
