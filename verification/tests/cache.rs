//! Where tarballs are cached.

use base64::Engine;
use pudu::cache::Cache;
use pudu::error::VendorError;
use pudu::tarball::{hex, sha512_digest};

fn integrity_of(bytes: &[u8]) -> String {
    format!(
        "sha512-{}",
        base64::engine::general_purpose::STANDARD.encode(sha512_digest(bytes))
    )
}

fn cache() -> Cache {
    Cache::with_root("/var/cache/pudu".to_string())
}

#[test]
fn the_path_is_derived_from_the_digest_not_the_url() {
    let bytes = b"hello";
    let h = hex(&sha512_digest(bytes));
    let p = cache().path_for("p@1.0.0", &integrity_of(bytes)).unwrap();
    assert_eq!(
        p,
        format!("/var/cache/pudu/tarballs/sha512/{}/{h}.tgz", &h[..2])
    );
    assert_eq!(cache().path_of(&sha512_digest(bytes)), p);
}

#[test]
fn a_malformed_integrity_has_no_path() {
    assert!(cache().path_for("p@1.0.0", "sha1-abc").is_err());
}

#[test]
fn put_then_get_round_trips() {
    let bytes = b"some tarball bytes".to_vec();
    let i = integrity_of(&bytes);
    assert_eq!(cache().get("p@1.0.0", &i, Some(bytes.clone())), Some(bytes));
}

#[test]
fn a_miss_is_none() {
    assert_eq!(
        cache().get("p@1.0.0", &integrity_of(b"never stored"), None),
        None
    );
}

#[test]
fn corrupt_cached_bytes_read_as_a_miss() {
    let i = integrity_of(b"good bytes");
    assert_eq!(cache().get("p@1.0.0", &i, Some(b"tampered".to_vec())), None);
    assert_eq!(
        cache().get("p@1.0.0", "sha1-abc", Some(b"good bytes".to_vec())),
        None
    );
}

#[test]
fn pudu_cache_dir_overrides_the_os_cache_directory() {
    let c = Cache::open(Some("/tmp/elsewhere"), Some("/home/me/.cache")).unwrap();
    assert_eq!(c.root(), "/tmp/elsewhere");
    let blank = Cache::open(Some(""), Some("/home/me/.cache")).unwrap();
    assert_eq!(blank.root(), "/home/me/.cache/pudu");
    let unset = Cache::open(None, Some("/home/me/.cache/")).unwrap();
    assert_eq!(unset.root(), "/home/me/.cache/pudu");
}

#[test]
fn no_cache_directory_is_an_error() {
    assert_eq!(
        Cache::open(None, None),
        Err(VendorError::CacheUnavailable)
    );
    assert_eq!(
        Cache::open(Some(""), None),
        Err(VendorError::CacheUnavailable)
    );
}

#[test]
fn packages_with_one_digest_share_one_file() {
    let i = integrity_of(b"same bytes");
    assert_eq!(cache().path_for("a@1", &i), cache().path_for("b@2", &i));
    assert_ne!(
        cache().path_for("a@1", &i),
        cache().path_for("a@1", &integrity_of(b"other bytes"))
    );
}
