//! Platform axes, spelled the way npm spells them.

pub mod constraints;
pub mod matching;
pub mod prune;

use vstd::prelude::*;

pub use matching::{admits, admits_platform};

verus! {

/// Operating system, using npm's `os` field vocabulary.
///
/// `Win32` is representable though no Windows platform can be configured: npm
/// packages declare `os: ["win32"]`.
#[derive(Debug, Clone, Copy, PartialEq, Eq, PartialOrd, Ord, Structural)]
pub enum Os {
    Linux,
    Darwin,
    Win32,
}

/// CPU architecture, using npm's `cpu` field vocabulary.
#[derive(Debug, Clone, Copy, PartialEq, Eq, PartialOrd, Ord, Structural)]
pub enum Cpu {
    X64,
    Arm64,
}

/// C standard library, using npm's `libc` field vocabulary. Linux only.
#[derive(Debug, Clone, Copy, PartialEq, Eq, PartialOrd, Ord, Structural)]
pub enum Libc {
    Glibc,
    Musl,
}

impl Os {
    /// npm's name for this system.
    pub open spec fn npm(self) -> Seq<char> {
        match self {
            Os::Linux => "linux"@,
            Os::Darwin => "darwin"@,
            Os::Win32 => "win32"@,
        }
    }

    pub fn as_npm(&self) -> (r: &'static str)
        ensures
            r@ == self.npm(),
    {
        match self {
            Os::Linux => "linux",
            Os::Darwin => "darwin",
            Os::Win32 => "win32",
        }
    }
}

impl Cpu {
    /// npm's name for this architecture.
    pub open spec fn npm(self) -> Seq<char> {
        match self {
            Cpu::X64 => "x64"@,
            Cpu::Arm64 => "arm64"@,
        }
    }

    pub fn as_npm(&self) -> (r: &'static str)
        ensures
            r@ == self.npm(),
    {
        match self {
            Cpu::X64 => "x64",
            Cpu::Arm64 => "arm64",
        }
    }
}

impl Libc {
    /// npm's name for this library.
    pub open spec fn npm(self) -> Seq<char> {
        match self {
            Libc::Glibc => "glibc"@,
            Libc::Musl => "musl"@,
        }
    }

    pub fn as_npm(&self) -> (r: &'static str)
        ensures
            r@ == self.npm(),
    {
        match self {
            Libc::Glibc => "glibc",
            Libc::Musl => "musl",
        }
    }

    /// The short name.
    pub open spec fn brief(self) -> Seq<char> {
        match self {
            Libc::Glibc => "gnu"@,
            Libc::Musl => "musl"@,
        }
    }

    /// Short form used in generated platform names (`linux-x64-gnu`).
    pub fn short(&self) -> (r: &'static str)
        ensures
            r@ == self.brief(),
    {
        match self {
            Libc::Glibc => "gnu",
            Libc::Musl => "musl",
        }
    }
}

} // verus!
