//! Buck2 constraint labels.

use pudu::config::Platform;
use pudu::dict::Dict;
use pudu::platform::constraints::constraint_labels;
use pudu::platform::{Cpu, Libc, Os};

fn platforms(list: Vec<(String, Platform)>) -> Dict<Platform> {
    let mut d = Dict::new();
    for (k, p) in list {
        d.insert(k, p);
    }
    d
}

fn at<'a>(all: &'a Dict<Platform>, name: &str) -> &'a Platform {
    all.get(name).unwrap()
}

fn p(os: Os, cpu: Cpu, libc: Option<Libc>) -> Platform {
    Platform {
        os,
        cpu,
        libc,
        constraints: None,
    }
}

fn only(platform: Platform) -> (Platform, Dict<Platform>) {
    let all = platforms(vec![("solo".to_string(), platform.clone())]);
    (platform, all)
}

#[test]
fn maps_os_and_cpu_to_prelude_labels() {
    let (plat, all) = only(p(Os::Linux, Cpu::X64, None));
    assert_eq!(
        constraint_labels(&plat, &all),
        vec![
            "prelude//cpu/constraints:x86_64".to_string(),
            "prelude//os/constraints:linux".to_string(),
        ]
    );
}

#[test]
fn npm_and_prelude_vocabularies_differ_on_darwin_and_glibc() {
    let (plat, all) = only(p(Os::Darwin, Cpu::Arm64, None));
    let labels = constraint_labels(&plat, &all);
    assert!(
        labels.contains(&"prelude//os/constraints:macos".to_string()),
        "npm `darwin` is the prelude's `macos`: {labels:?}"
    );
    assert!(!labels.iter().any(|l| l.contains("darwin")), "{labels:?}");

    let all = platforms(vec![
        (
            "linux-x64-gnu".to_string(),
            p(Os::Linux, Cpu::X64, Some(Libc::Glibc)),
        ),
        (
            "linux-x64-musl".to_string(),
            p(Os::Linux, Cpu::X64, Some(Libc::Musl)),
        ),
    ]);
    let labels = constraint_labels(at(&all, "linux-x64-gnu"), &all);
    assert!(
        labels.contains(&"prelude//abi/constraints:gnu".to_string()),
        "npm `glibc` is the prelude's `gnu`: {labels:?}"
    );
    assert!(!labels.iter().any(|l| l.contains("glibc")), "{labels:?}");
}

#[test]
fn maps_win32_to_windows() {
    let (plat, all) = only(p(Os::Win32, Cpu::X64, None));
    assert!(
        constraint_labels(&plat, &all).contains(&"prelude//os/constraints:windows".to_string())
    );
}

#[test]
fn labels_are_sorted() {
    let all = platforms(vec![
        (
            "linux-x64-gnu".to_string(),
            p(Os::Linux, Cpu::X64, Some(Libc::Glibc)),
        ),
        (
            "linux-x64-musl".to_string(),
            p(Os::Linux, Cpu::X64, Some(Libc::Musl)),
        ),
    ]);
    let labels = constraint_labels(at(&all, "linux-x64-gnu"), &all);
    let mut sorted = labels.clone();
    sorted.sort();
    assert_eq!(labels, sorted, "emitted constraint_values must be sorted");
}

#[test]
fn glibc_only_configuration_emits_no_abi_constraint() {
    let all = platforms(vec![
        (
            "linux-x64-gnu".to_string(),
            p(Os::Linux, Cpu::X64, Some(Libc::Glibc)),
        ),
        ("darwin-arm64".to_string(), p(Os::Darwin, Cpu::Arm64, None)),
    ]);
    for name in ["linux-x64-gnu", "darwin-arm64"] {
        let labels = constraint_labels(at(&all, name), &all);
        assert!(
            !labels.iter().any(|l| l.contains("abi")),
            "{name} must gain no abi constraint: {labels:?}"
        );
    }
}

#[test]
fn gnu_plus_musl_emits_the_abi_constraint_on_both() {
    let all = platforms(vec![
        (
            "linux-x64-gnu".to_string(),
            p(Os::Linux, Cpu::X64, Some(Libc::Glibc)),
        ),
        (
            "linux-x64-musl".to_string(),
            p(Os::Linux, Cpu::X64, Some(Libc::Musl)),
        ),
    ]);
    assert!(
        constraint_labels(at(&all, "linux-x64-gnu"), &all)
            .contains(&"prelude//abi/constraints:gnu".to_string())
    );
    assert!(
        constraint_labels(at(&all, "linux-x64-musl"), &all)
            .contains(&"prelude//abi/constraints:musl".to_string())
    );
}

#[test]
fn differing_libc_on_a_different_cpu_does_not_discriminate() {
    let all = platforms(vec![
        (
            "linux-x64-gnu".to_string(),
            p(Os::Linux, Cpu::X64, Some(Libc::Glibc)),
        ),
        (
            "linux-arm64-musl".to_string(),
            p(Os::Linux, Cpu::Arm64, Some(Libc::Musl)),
        ),
    ]);
    for name in ["linux-x64-gnu", "linux-arm64-musl"] {
        let labels = constraint_labels(at(&all, name), &all);
        assert!(
            !labels.iter().any(|l| l.contains("abi")),
            "{name}: {labels:?}"
        );
    }
}

#[test]
fn a_platform_with_no_libc_never_gains_an_abi_constraint() {
    let all = platforms(vec![
        ("linux-x64".to_string(), p(Os::Linux, Cpu::X64, None)),
        (
            "linux-x64-musl".to_string(),
            p(Os::Linux, Cpu::X64, Some(Libc::Musl)),
        ),
    ]);
    let labels = constraint_labels(at(&all, "linux-x64"), &all);
    assert!(!labels.iter().any(|l| l.contains("abi")), "{labels:?}");
    let labels = constraint_labels(at(&all, "linux-x64-musl"), &all);
    assert!(
        !labels.iter().any(|l| l.contains("abi")),
        "no-libc platform should not discriminate: {labels:?}"
    );
}

#[test]
fn constraints_override_replaces_generated_labels_entirely() {
    let plat = Platform {
        os: Os::Linux,
        cpu: Cpu::X64,
        libc: Some(Libc::Glibc),
        constraints: Some(vec![
            "ovr_config//os:linux".to_string(),
            "ovr_config//cpu:x86_64".to_string(),
        ]),
    };
    let all = platforms(vec![
        ("corp-linux".to_string(), plat.clone()),
        (
            "linux-x64-musl".to_string(),
            p(Os::Linux, Cpu::X64, Some(Libc::Musl)),
        ),
    ]);
    let labels = constraint_labels(&plat, &all);
    assert_eq!(
        labels,
        vec![
            "ovr_config//os:linux".to_string(),
            "ovr_config//cpu:x86_64".to_string(),
        ]
    );
    assert!(!labels.iter().any(|l| l.starts_with("prelude//")));
}

#[test]
fn an_empty_constraints_override_is_honoured_as_written() {
    let plat = Platform {
        os: Os::Linux,
        cpu: Cpu::X64,
        libc: None,
        constraints: Some(Vec::new()),
    };
    let all = platforms(vec![("bare".to_string(), plat.clone())]);
    assert!(
        constraint_labels(&plat, &all).is_empty(),
        "an explicit empty list is a request, not an absence"
    );
}
