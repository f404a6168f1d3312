//! Platform axes.

use pudu::platform::{Cpu, Libc, Os};

#[test]
fn npm_spellings_round_trip() {
    assert_eq!(Os::Darwin.as_npm(), "darwin");
    assert_eq!(Os::Win32.as_npm(), "win32");
    assert_eq!(Cpu::Arm64.as_npm(), "arm64");
}

#[test]
fn libc_as_npm_spells_glibc_and_musl() {
    assert_eq!(Libc::Glibc.as_npm(), "glibc");
    assert_eq!(Libc::Musl.as_npm(), "musl");
}

#[test]
fn libc_short_form_feeds_generated_platform_names() {
    assert_eq!(Libc::Glibc.short(), "gnu");
    assert_eq!(Libc::Musl.short(), "musl");
}
