//! Does a package's npm platform field admit a given platform?

use vstd::prelude::*;

use crate::config::{Platform, PlatformModel};
use crate::lock::types::{PackageMeta, PackageMetaModel};
use crate::text::{chars_of, same, text_of};

verus! {

/// An entry that excludes rather than names a value.
pub open spec fn is_negation(entry: Seq<char>) -> bool {
    entry.len() > 0 && entry[0] == '!'
}

/// Whether a platform list admits a value.
///
/// A lone `any` admits everything. Otherwise no entry may negate the value, and
/// either an entry names it or all entries are negations: a list that mixes
/// both needs a positive hit, and an empty list admits everything.
pub open spec fn list_admits(list: Seq<Seq<char>>, current: Seq<char>) -> bool {
    ||| list.len() == 1 && list[0] == "any"@
    ||| {
        &&& forall|i: int|
            0 <= i < list.len() ==> !(is_negation(#[trigger] list[i]) && list[i].skip(1) == current)
        &&& {
            ||| exists|i: int|
                0 <= i < list.len() && !is_negation(#[trigger] list[i]) && list[i] == current
            ||| forall|i: int| 0 <= i < list.len() ==> is_negation(#[trigger] list[i])
        }
    }
}

/// Whether a platform field admits a value. An absent field admits everything.
pub open spec fn field_admits(field: Option<Seq<Seq<char>>>, current: Seq<char>) -> bool {
    match field {
        None => true,
        Some(list) => list_admits(list, current),
    }
}

/// Whether a package can be used on a platform: its `os` and `cpu` fields admit
/// it, and its `libc` field does where the platform has a libc.
pub open spec fn meta_admits(meta: PackageMetaModel, platform: PlatformModel) -> bool {
    &&& field_admits(meta.os, platform.os.npm())
    &&& field_admits(meta.cpu, platform.cpu.npm())
    &&& match platform.libc {
        Some(libc) => field_admits(meta.libc, libc.npm()),
        None => true,
    }
}

/// Does a package's npm platform field admit `current`?
///
/// `field` is the raw list from the lockfile with negation intact; `None` is an
/// absent field.
pub fn admits(field: Option<&[String]>, current: &str) -> (r: bool)
    ensures
        r == field_admits(
            match field {
                Some(list) => Some(list.deep_view()),
                None => None,
            },
            current@,
        ),
{
    let list = match field {
        Some(list) => list,
        None => {
            return true;
        },
    };
    let ghost want = list.deep_view();
    // `any` is special only as a singleton: `["any", "darwin"]` is an ordinary
    // two-entry positive list.
    if list.len() == 1 && same(list[0].as_str(), "any") {
        assert(want[0] == list@[0]@);
        return true;
    }
    assert(!(want.len() == 1 && want[0] == "any"@)) by {
        assert(list.len() == 1 ==> want[0] == list@[0]@);
    }
    let mut matched = false;
    let mut negations: usize = 0;
    let mut i: usize = 0;
    while i < list.len()
        invariant
            field == Some(list),
            want == list.deep_view(),
            !(want.len() == 1 && want[0] == "any"@),
            i <= list.len(),
            negations <= i,
            forall|k: int|
                0 <= k < i ==> !(is_negation(#[trigger] want[k]) && want[k].skip(1) == current@),
            matched <==> exists|k: int|
                0 <= k < i && !is_negation(#[trigger] want[k]) && want[k] == current@,
            negations == i <==> forall|k: int| 0 <= k < i ==> is_negation(#[trigger] want[k]),
        decreases list.len() - i,
    {
        let entry = list[i].as_str();
        let chars = chars_of(entry);
        assert(want[i as int] == entry@);
        if chars.len() > 0 && chars[0] == '!' {
            let body = text_of(&chars, 1, chars.len());
            assert(body@ =~= entry@.skip(1));
            if same(body.as_str(), current) {
                return false;
            }
            negations += 1;
        } else if same(entry, current) {
            matched = true;
        }
        i += 1;
    }
    matched || negations == list.len()
}

fn list_field_admits(field: &Option<Vec<String>>, current: &str) -> (r: bool)
    ensures
        r == field_admits(field.deep_view(), current@),
{
    match field {
        None => true,
        Some(list) => {
            let entries = list.as_slice();
            assert(entries.deep_view() =~= list.deep_view());
            admits(Some(entries), current)
        },
    }
}

/// Do a package's `os`, `cpu` and `libc` fields admit this platform?
pub fn admits_platform(meta: &PackageMeta, platform: &Platform) -> (r: bool)
    ensures
        r == meta_admits(meta.deep_view(), platform.deep_view()),
{
    list_field_admits(&meta.os, platform.os.as_npm()) && list_field_admits(
        &meta.cpu,
        platform.cpu.as_npm(),
    ) && match platform.libc {
        Some(libc) => list_field_admits(&meta.libc, libc.as_npm()),
        None => true,
    }
}

/// An absent field and an empty list admit everything.
pub proof fn nothing_said_admits_everything(current: Seq<char>)
    ensures
        field_admits(None, current),
        field_admits(Some(Seq::empty()), current),
{
}

/// A negation only ever subtracts: adding one to a list admits nothing that the
/// list did not admit.
pub proof fn negations_never_widen(list: Seq<Seq<char>>, entry: Seq<char>, current: Seq<char>)
    requires
        is_negation(entry),
        list_admits(list.push(entry), current),
    ensures
        list_admits(list, current),
        entry.skip(1) != current,
{
    let more = list.push(entry);
    reveal_strlit("any");
    assert(more[list.len() as int] == entry);
    assert(!(more.len() == 1 && more[0] == "any"@));
    assert forall|i: int| 0 <= i < list.len() implies !(is_negation(#[trigger] list[i]) && list[i].skip(1) == current) by {
        assert(more[i] == list[i]);
    }
    if exists|i: int| 0 <= i < more.len() && !is_negation(#[trigger] more[i]) && more[i] == current {
        let i = choose|i: int| 0 <= i < more.len() && !is_negation(#[trigger] more[i]) && more[i] == current;
        assert(list[i] == more[i]);
    } else {
        assert forall|i: int| 0 <= i < list.len() implies is_negation(#[trigger] list[i]) by {
            assert(more[i] == list[i]);
        }
    }
}

} // verus!
