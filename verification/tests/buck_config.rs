//! The platform settings file.

use pudu::buck::config::render;
use pudu::buck::HEADER;
use pudu::config::Platform;
use pudu::dict::Dict;
use pudu::platform::{Cpu, Libc, Os};

fn platform(os: Os, cpu: Cpu, libc: Option<Libc>) -> Platform {
    Platform {
        os,
        cpu,
        libc,
        constraints: None,
    }
}

fn glibc_only() -> Dict<Platform> {
    let mut p = Dict::new();
    p.insert(
        "linux-x64-gnu".to_string(),
        platform(Os::Linux, Cpu::X64, Some(Libc::Glibc)),
    );
    p
}

#[test]
fn one_config_setting_per_platform_in_name_order() {
    let mut p = glibc_only();
    p.insert(
        "darwin-arm64".to_string(),
        platform(Os::Darwin, Cpu::Arm64, None),
    );
    let out = render(&p);
    let darwin = out.find("darwin-arm64").unwrap();
    let linux = out.find("linux-x64-gnu").unwrap();
    assert!(darwin < linux, "platforms must be emitted in name order");
    assert_eq!(out.matches("config_setting(").count(), 2);
}

#[test]
fn a_glibc_only_config_emits_no_abi_constraint() {
    let out = render(&glibc_only());
    assert!(!out.contains("abi/constraints"));
    assert!(out.contains("prelude//cpu/constraints:x86_64"));
    assert!(out.contains("prelude//os/constraints:linux"));
}

#[test]
fn a_libc_pair_emits_the_abi_constraint_on_both() {
    let mut p = glibc_only();
    p.insert(
        "linux-x64-musl".to_string(),
        platform(Os::Linux, Cpu::X64, Some(Libc::Musl)),
    );
    let out = render(&p);
    assert!(out.contains("prelude//abi/constraints:gnu"));
    assert!(out.contains("prelude//abi/constraints:musl"));
}

#[test]
fn the_file_opens_with_the_generated_banner_and_is_deterministic() {
    let p = glibc_only();
    assert!(render(&p).starts_with(HEADER));
    assert_eq!(render(&p), render(&p));
}

#[test]
fn every_config_setting_is_public() {
    let out = render(&glibc_only());
    assert_eq!(out.matches(r#"visibility = ["PUBLIC"]"#).count(), 1);
}
