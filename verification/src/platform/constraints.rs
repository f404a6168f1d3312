//! Mapping a configured platform to Buck2 constraint labels.

use vstd::prelude::*;

use crate::config::{Platform, PlatformModel};
use crate::dict::{Dict, Duplicate};
use crate::lock::types::Table;
use crate::platform::{Cpu, Libc, Os};
use crate::text::text_lt;

verus! {

/// The prelude's label for a system. npm's `darwin` is its `macos`, and `win32`
/// its `windows`.
pub open spec fn os_constraint(os: Os) -> Seq<char> {
    match os {
        Os::Linux => "prelude//os/constraints:linux"@,
        Os::Darwin => "prelude//os/constraints:macos"@,
        Os::Win32 => "prelude//os/constraints:windows"@,
    }
}

/// The prelude's label for an architecture.
pub open spec fn cpu_constraint(cpu: Cpu) -> Seq<char> {
    match cpu {
        Cpu::X64 => "prelude//cpu/constraints:x86_64"@,
        Cpu::Arm64 => "prelude//cpu/constraints:arm64"@,
    }
}

/// The prelude's label for a C library. npm's `glibc` is its `gnu`.
pub open spec fn abi_constraint(libc: Libc) -> Seq<char> {
    match libc {
        Libc::Glibc => "prelude//abi/constraints:gnu"@,
        Libc::Musl => "prelude//abi/constraints:musl"@,
    }
}

/// Some configured platform shares this one's system and architecture and has a
/// different C library.
pub open spec fn abi_tells_apart(platform: PlatformModel, all: Table<PlatformModel>) -> bool {
    &&& platform.libc is Some
    &&& exists|i: int|
        0 <= i < all.len() && (#[trigger] all[i]).1.os == platform.os && all[i].1.cpu
            == platform.cpu && all[i].1.libc is Some && all[i].1.libc != platform.libc
}

/// The labels of a platform: its override as written, else the generated ones in
/// order, the one for the C library only where it tells platforms apart.
pub open spec fn labels_of(platform: PlatformModel, all: Table<PlatformModel>) -> Seq<Seq<char>> {
    match platform.constraints {
        Some(labels) => labels,
        None => {
            let base = seq![cpu_constraint(platform.cpu), os_constraint(platform.os)];
            if abi_tells_apart(platform, all) {
                seq![abi_constraint(platform.libc->Some_0)] + base
            } else {
                base
            }
        },
    }
}

fn os_label(os: Os) -> (r: &'static str)
    ensures
        r@ == os_constraint(os),
{
    match os {
        Os::Linux => "prelude//os/constraints:linux",
        Os::Darwin => "prelude//os/constraints:macos",
        Os::Win32 => "prelude//os/constraints:windows",
    }
}

fn cpu_label(cpu: Cpu) -> (r: &'static str)
    ensures
        r@ == cpu_constraint(cpu),
{
    match cpu {
        Cpu::X64 => "prelude//cpu/constraints:x86_64",
        Cpu::Arm64 => "prelude//cpu/constraints:arm64",
    }
}

fn abi_label(libc: Libc) -> (r: &'static str)
    ensures
        r@ == abi_constraint(libc),
{
    match libc {
        Libc::Glibc => "prelude//abi/constraints:gnu",
        Libc::Musl => "prelude//abi/constraints:musl",
    }
}

/// Does the abi constraint distinguish this platform from another configured
/// one? The default Buck platform sets only cpu and os, so the label is emitted
/// only where it is needed.
fn abi_discriminates(platform: &Platform, all: &Dict<Platform>) -> (r: bool)
    ensures
        r == abi_tells_apart(platform.deep_view(), all.deep_view()),
{
    let libc = match platform.libc {
        Some(l) => l,
        None => {
            return false;
        },
    };
    let ghost table = all.deep_view();
    let mut i: usize = 0;
    while i < all.len()
        invariant
            table == all.deep_view(),
            i <= table.len(),
            platform.libc == Some(libc),
            forall|k: int|
                0 <= k < i ==> !((#[trigger] table[k]).1.os == platform.os && table[k].1.cpu
                    == platform.cpu && table[k].1.libc is Some && table[k].1.libc != platform.libc),
        decreases table.len() - i,
    {
        let other = all.value(i);
        assert(table[i as int].1 == other.deep_view());
        if other.os == platform.os && other.cpu == platform.cpu {
            if let Some(l) = other.libc {
                if l != libc {
                    return true;
                }
            }
        }
        i += 1;
    }
    false
}

/// The Buck2 constraint labels a platform selects on.
///
/// Generated labels come sorted: `abi` before `cpu` before `os`. A
/// `constraints = [...]` override is returned verbatim in its own order.
pub fn constraint_labels(platform: &Platform, all: &Dict<Platform>) -> (r: Vec<String>)
    ensures
        r.deep_view() == labels_of(platform.deep_view(), all.deep_view()),
{
    if let Some(overrides) = &platform.constraints {
        return overrides.duplicate();
    }
    let mut labels: Vec<String> = Vec::new();
    if let Some(libc) = platform.libc {
        if abi_discriminates(platform, all) {
            labels.push(abi_label(libc).to_owned());
        }
    }
    labels.push(cpu_label(platform.cpu).to_owned());
    labels.push(os_label(platform.os).to_owned());
    proof {
        assert(labels.deep_view() =~= labels_of(platform.deep_view(), all.deep_view()));
    }
    labels
}

/// Two texts that agree up to a character where the first is smaller are ordered.
proof fn ordered_by(prefix: Seq<char>, a: Seq<char>, b: Seq<char>)
    requires
        prefix.is_prefix_of(a),
        prefix.is_prefix_of(b),
        a.len() > prefix.len(),
        b.len() > prefix.len(),
        a[prefix.len() as int] < b[prefix.len() as int],
    ensures
        text_lt(a, b),
    decreases prefix.len(),
{
    if prefix.len() > 0 {
        assert(prefix[0] == a[0]);
        assert(prefix[0] == b[0]);
        assert(prefix.drop_first() =~= a.drop_first().take(prefix.len() - 1));
        assert(prefix.drop_first() =~= b.drop_first().take(prefix.len() - 1));
        ordered_by(prefix.drop_first(), a.drop_first(), b.drop_first());
    }
}

/// Generated labels come in increasing order, each once.
pub proof fn generated_labels_increase(platform: PlatformModel, all: Table<PlatformModel>)
    requires
        platform.constraints is None,
    ensures
        forall|i: int, j: int|
            0 <= i < j < labels_of(platform, all).len() ==> text_lt(
                #[trigger] labels_of(platform, all)[i],
                #[trigger] labels_of(platform, all)[j],
            ),
{
    let labels = labels_of(platform, all);
    reveal_strlit("prelude//os/constraints:linux");
    reveal_strlit("prelude//os/constraints:macos");
    reveal_strlit("prelude//os/constraints:windows");
    reveal_strlit("prelude//cpu/constraints:x86_64");
    reveal_strlit("prelude//cpu/constraints:arm64");
    reveal_strlit("prelude//abi/constraints:gnu");
    reveal_strlit("prelude//abi/constraints:musl");
    reveal_strlit("prelude//");
    let prefix = "prelude//"@;
    assert forall|i: int, j: int| 0 <= i < j < labels.len() implies text_lt(#[trigger] labels[i], #[trigger] labels[j]) by {
        assert(labels[i].take(9) =~= prefix);
        assert(labels[j].take(9) =~= prefix);
        ordered_by(prefix, labels[i], labels[j]);
    }
}

/// A platform that configures no C library never gets a label for one.
pub proof fn no_libc_no_abi_label(platform: PlatformModel, all: Table<PlatformModel>)
    requires
        platform.constraints is None,
        platform.libc is None,
    ensures
        labels_of(platform, all) == seq![cpu_constraint(platform.cpu), os_constraint(platform.os)],
{
}

/// Two platforms that differ in nothing but their C library both get a label for
/// it, not just one of them.
pub proof fn both_sides_get_the_abi_label(all: Table<PlatformModel>, i: int, j: int)
    requires
        0 <= i < all.len(),
        0 <= j < all.len(),
        all[i].1.constraints is None,
        all[j].1.constraints is None,
        all[i].1.os == all[j].1.os,
        all[i].1.cpu == all[j].1.cpu,
        all[i].1.libc is Some,
        all[j].1.libc is Some,
        all[i].1.libc != all[j].1.libc,
    ensures
        labels_of(all[i].1, all).contains(abi_constraint(all[i].1.libc->Some_0)),
        labels_of(all[j].1, all).contains(abi_constraint(all[j].1.libc->Some_0)),
{
    assert(labels_of(all[i].1, all)[0] == abi_constraint(all[i].1.libc->Some_0));
    assert(labels_of(all[j].1, all)[0] == abi_constraint(all[j].1.libc->Some_0));
}

/// The label for the C library is left out unless two platforms differ in nothing
/// else, so that a configuration with one C library selects on what every build sets
/// already.
pub proof fn no_abi_label_without_need(platform: PlatformModel, all: Table<PlatformModel>)
    requires
        platform.constraints is None,
        forall|i: int|
            0 <= i < all.len() && (#[trigger] all[i]).1.os == platform.os && all[i].1.cpu
                == platform.cpu && all[i].1.libc is Some ==> all[i].1.libc == platform.libc,
    ensures
        labels_of(platform, all) == seq![cpu_constraint(platform.cpu), os_constraint(platform.os)],
{
}

/// What a platform without an override selects on: the prelude's label for its
/// architecture and for its system, and nothing else but, where it is needed, the label
/// for its C library.
pub proof fn labels_say_what_a_platform_is(platform: PlatformModel, all: Table<PlatformModel>)
    ensures
        platform.constraints is Some ==> labels_of(platform, all) == platform.constraints->Some_0,
        platform.constraints is None ==> {
            let labels = labels_of(platform, all);
            let n = labels.len() as int;
            &&& 2 <= n <= 3
            &&& platform.cpu is X64 ==> labels[n - 2] == "prelude//cpu/constraints:x86_64"@
            &&& platform.cpu is Arm64 ==> labels[n - 2] == "prelude//cpu/constraints:arm64"@
            &&& platform.os is Linux ==> labels[n - 1] == "prelude//os/constraints:linux"@
            &&& platform.os is Darwin ==> labels[n - 1] == "prelude//os/constraints:macos"@
            &&& platform.os is Win32 ==> labels[n - 1] == "prelude//os/constraints:windows"@
            &&& n == 3 ==> platform.libc is Some
            &&& n == 3 && platform.libc == Some(Libc::Glibc) ==> labels[0]
                == "prelude//abi/constraints:gnu"@
            &&& n == 3 && platform.libc == Some(Libc::Musl) ==> labels[0]
                == "prelude//abi/constraints:musl"@
            &&& n == 3 <==> platform.libc is Some && exists|i: int|
                0 <= i < all.len() && (#[trigger] all[i]).1.os == platform.os && all[i].1.cpu
                    == platform.cpu && all[i].1.libc is Some && all[i].1.libc != platform.libc
        },
{
}

/// The labels tell the configured platforms apart: two without overrides that differ in
/// their system, their architecture or their C library select on different labels.
pub proof fn labels_tell_platforms_apart(all: Table<PlatformModel>, i: int, j: int)
    requires
        0 <= i < all.len(),
        0 <= j < all.len(),
        all[i].1.constraints is None,
        all[j].1.constraints is None,
        all[i].1.os != all[j].1.os || all[i].1.cpu != all[j].1.cpu || (all[i].1.libc is Some
            && all[j].1.libc is Some && all[i].1.libc != all[j].1.libc),
    ensures
        labels_of(all[i].1, all) != labels_of(all[j].1, all),
{
    let a = labels_of(all[i].1, all);
    let b = labels_of(all[j].1, all);
    reveal_strlit("prelude//os/constraints:linux");
    reveal_strlit("prelude//os/constraints:macos");
    reveal_strlit("prelude//os/constraints:windows");
    reveal_strlit("prelude//cpu/constraints:x86_64");
    reveal_strlit("prelude//cpu/constraints:arm64");
    reveal_strlit("prelude//abi/constraints:gnu");
    reveal_strlit("prelude//abi/constraints:musl");
    assert("prelude//os/constraints:linux"@[24] != "prelude//os/constraints:macos"@[24]);
    assert("prelude//os/constraints:linux"@.len() != "prelude//os/constraints:windows"@.len());
    assert("prelude//os/constraints:macos"@.len() != "prelude//os/constraints:windows"@.len());
    assert("prelude//cpu/constraints:x86_64"@.len() != "prelude//cpu/constraints:arm64"@.len());
    assert("prelude//abi/constraints:gnu"@.len() != "prelude//abi/constraints:musl"@.len());
    labels_say_what_a_platform_is(all[i].1, all);
    labels_say_what_a_platform_is(all[j].1, all);
    if a == b {
        let n = a.len() as int;
        assert(a[n - 1] == b[n - 1] && a[n - 2] == b[n - 2]);
        assert(all[i].1.os == all[j].1.os && all[i].1.cpu == all[j].1.cpu);
        assert(n == 3);
        assert(a[0] == b[0]);
    }
}

} // verus!
