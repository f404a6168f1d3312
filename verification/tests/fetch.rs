//! When to ask the network, and when to ask again.

use std::io::Write;

use base64::Engine;
use pudu::error::VendorError;
use pudu::fetch::{
    clamp_jobs, download_step, retryable, settle, start, Action, Request, Response, Start,
};
use pudu::tarball::sha512_digest;

fn tarball(files: &[(&str, &str)]) -> Vec<u8> {
    let mut ar = tar::Builder::new(Vec::new());
    for (path, body) in files {
        let mut h = tar::Header::new_gnu();
        h.set_size(body.len() as u64);
        h.set_mode(0o644);
        h.set_cksum();
        ar.append_data(&mut h, format!("package/{path}"), body.as_bytes())
            .unwrap();
    }
    let bytes = ar.into_inner().unwrap();
    let mut gz = flate2::write::GzEncoder::new(Vec::new(), flate2::Compression::default());
    gz.write_all(&bytes).unwrap();
    gz.finish().unwrap()
}

fn integrity_of(bytes: &[u8]) -> String {
    format!(
        "sha512-{}",
        base64::engine::general_purpose::STANDARD.encode(sha512_digest(bytes))
    )
}

fn request(url: String, integrity: String) -> Request {
    Request {
        key: "p@1.0.0".to_string(),
        name: "p".to_string(),
        url,
        integrity,
    }
}

fn body() -> Vec<u8> {
    tarball(&[("package.json", r#"{"name":"p","bin":"cli.js"}"#)])
}

/// Plays a registry that always answers the same: how many requests are made, what
/// is waited for, and what comes of it.
fn play(req: &Request, answer: fn() -> Response) -> (usize, Vec<u64>, Result<Vec<u8>, VendorError>) {
    let mut calls = 0;
    let mut waits = Vec::new();
    loop {
        calls += 1;
        match download_step(req, waits.len(), answer()) {
            Action::Take(bytes) => return (calls, waits, Ok(bytes)),
            Action::Wait { millis } => waits.push(millis),
            Action::Fail(e) => return (calls, waits, Err(e)),
        }
    }
}

#[test]
fn retryable_covers_transient_statuses_only() {
    for s in [408, 429, 500, 502, 503, 504] {
        assert!(retryable(s), "{s} should be retried");
    }
    for s in [400, 401, 403, 404, 200, 301] {
        assert!(!retryable(s), "{s} must not be retried");
    }
}

#[test]
fn a_successful_fetch_verifies_inspects_and_caches() {
    let bytes = body();
    let req = request("https://registry.example/p.tgz".to_string(), integrity_of(&bytes));
    assert_eq!(start(&req, false, false), Start::Download);
    let (outcome, store) = settle(&req, &bytes, true);
    let (verified, _) = outcome.unwrap();
    assert_eq!(verified.size, bytes.len() as u64);
    assert_eq!(verified.inspection.bin.get("p").unwrap(), "cli.js");
    assert!(store);
}

#[test]
fn a_warm_cache_is_used_without_a_request() {
    let bytes = body();
    let req = request("https://registry.example/p.tgz".to_string(), integrity_of(&bytes));
    assert_eq!(start(&req, true, false), Start::UseCache);
    let (outcome, store) = settle(&req, &bytes, false);
    assert!(outcome.is_ok(), "{outcome:?}");
    assert!(!store, "what came from the cache is not written back");
}

#[test]
fn no_network_with_a_cold_cache_names_the_package_and_url() {
    let req = request(
        "https://registry.example/p.tgz".to_string(),
        integrity_of(&body()),
    );
    let Start::Fail(VendorError::NetworkDisabled { key, url }) = start(&req, false, true) else {
        panic!("must not reach the network");
    };
    assert_eq!(key, "p@1.0.0");
    assert_eq!(url, "https://registry.example/p.tgz");
}

#[test]
fn no_network_with_a_warm_cache_succeeds() {
    let bytes = body();
    let req = request("https://registry.example/p.tgz".to_string(), integrity_of(&bytes));
    assert_eq!(start(&req, true, true), Start::UseCache);
    assert!(settle(&req, &bytes, false).0.is_ok());
}

#[test]
fn a_503_is_retried_three_times_before_giving_up() {
    let req = request("https://registry.example/p.tgz".to_string(), integrity_of(&body()));
    let (calls, waits, out) = play(&req, || Response::Status(503));
    assert_eq!(calls, 4, "one attempt plus three retries");
    assert_eq!(waits, vec![250, 500, 1000]);
    assert!(matches!(out, Err(VendorError::HttpStatus { status: 503, .. })));
}

#[test]
fn a_404_is_not_retried() {
    let req = request("https://registry.example/gone.tgz".to_string(), integrity_of(&body()));
    let (calls, _, out) = play(&req, || Response::Status(404));
    assert!(matches!(out, Err(VendorError::HttpStatus { status: 404, .. })));
    assert_eq!(calls, 1, "a 4xx is the registry's final answer");
}

#[test]
fn a_broken_connection_is_retried_and_named() {
    let req = request("https://registry.example/p.tgz".to_string(), integrity_of(&body()));
    let (calls, _, out) = play(&req, || Response::Broken("reset by peer".to_string()));
    assert_eq!(calls, 4);
    assert_eq!(
        out,
        Err(VendorError::Transport {
            key: "p@1.0.0".to_string(),
            url: "https://registry.example/p.tgz".to_string(),
            source: "reset by peer".to_string(),
        })
    );
}

#[test]
fn a_body_is_taken_at_once() {
    let req = request("https://registry.example/p.tgz".to_string(), integrity_of(&body()));
    let (calls, _, out) = play(&req, || Response::Body(vec![1, 2, 3]));
    assert_eq!((calls, out), (1, Ok(vec![1, 2, 3])));
}

#[test]
fn served_bytes_that_fail_the_integrity_are_rejected_and_not_cached() {
    let wrong = integrity_of(b"entirely different bytes");
    let req = request("https://registry.example/p.tgz".to_string(), wrong);
    let (outcome, store) = settle(&req, &body(), true);
    assert!(
        matches!(outcome, Err(VendorError::IntegrityMismatch { .. })),
        "{outcome:?}"
    );
    assert!(!store, "bytes that failed verification must not be cached");
}

#[test]
fn jobs_are_clamped() {
    assert_eq!(clamp_jobs(0), 1);
    assert_eq!(clamp_jobs(8), 8);
    assert_eq!(clamp_jobs(64), 64);
    assert_eq!(clamp_jobs(1000), 64);
}
