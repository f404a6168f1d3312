//! The package table: what is recorded of each vendored package.

use vstd::prelude::*;

use crate::dict::{lookup, Dict, Duplicate};
use crate::lock::types::Table;
use crate::text::same;

verus! {

/// What the package table records of one `name@version`.
#[derive(Debug, PartialEq)]
pub struct Entry {
    pub url: String,
    pub sha512: String,
    pub sha256: String,
    pub size: u64,
    /// The archive's root directory.
    pub root: String,
    /// Command name to path within the package.
    pub bin: Dict<String>,
    pub has_install_script: bool,
}

/// The mathematical value of an [`Entry`].
pub struct EntryModel {
    pub url: Seq<char>,
    pub sha512: Seq<char>,
    pub sha256: Seq<char>,
    pub size: u64,
    pub root: Seq<char>,
    pub bin: Table<Seq<char>>,
    pub has_install_script: bool,
}

impl DeepView for Entry {
    type V = EntryModel;

    open spec fn deep_view(&self) -> EntryModel {
        EntryModel {
            url: self.url@,
            sha512: self.sha512@,
            sha256: self.sha256@,
            size: self.size,
            root: self.root@,
            bin: self.bin.deep_view(),
            has_install_script: self.has_install_script,
        }
    }
}

impl Duplicate for Entry {
    fn duplicate(&self) -> (r: Self) {
        Entry {
            url: self.url.clone(),
            sha512: self.sha512.clone(),
            sha256: self.sha256.clone(),
            size: self.size,
            root: self.root.clone(),
            bin: self.bin.duplicate(),
            has_install_script: self.has_install_script,
        }
    }
}

/// What the lockfile asks of one package.
#[derive(Debug, PartialEq)]
pub struct Expected {
    pub url: String,
    pub sha512: String,
}

/// The mathematical value of an [`Expected`].
pub struct ExpectedModel {
    pub url: Seq<char>,
    pub sha512: Seq<char>,
}

impl DeepView for Expected {
    type V = ExpectedModel;

    open spec fn deep_view(&self) -> ExpectedModel {
        ExpectedModel { url: self.url@, sha512: self.sha512@ }
    }
}

/// All that is recorded, keyed by `name@version`.
#[derive(Debug, PartialEq)]
pub struct PackageTable {
    pub entries: Dict<Entry>,
}

/// What was found in place of the table.
#[derive(Debug, PartialEq)]
pub enum Loaded {
    Present(PackageTable),
    Absent,
    /// A table in a form that is not read: its version.
    WrongVersion(String),
}

/// What is recorded, nothing where no table could be read.
pub open spec fn recorded(loaded: Loaded) -> Table<EntryModel> {
    match loaded {
        Loaded::Present(table) => table.entries.deep_view(),
        _ => Seq::empty(),
    }
}

/// How a table fails to record what is expected of a package.
pub open spec fn difference(
    key: Seq<char>,
    expected: ExpectedModel,
    entries: Table<EntryModel>,
) -> Option<Seq<char>> {
    match lookup(entries, key) {
        None => Some("packages.toml has no entry for `"@ + key + "`"@),
        Some(e) => if e.url != expected.url {
            Some("packages.toml records another url for `"@ + key + "`"@)
        } else if e.sha512 != expected.sha512 {
            Some("packages.toml records another integrity for `"@ + key + "`"@)
        } else {
            None
        },
    }
}

/// How a table fails to record what is expected of the first `n` packages.
pub open spec fn differences(
    expected: Table<ExpectedModel>,
    entries: Table<EntryModel>,
    n: int,
) -> Seq<Seq<char>>
    decreases n,
{
    if n <= 0 {
        Seq::empty()
    } else {
        match difference(expected[n - 1].0, expected[n - 1].1, entries) {
            Some(d) => differences(expected, entries, n - 1).push(d),
            None => differences(expected, entries, n - 1),
        }
    }
}

fn quoted(before: &str, key: &str) -> (r: String)
    ensures
        r@ == before@ + key@ + "`"@,
{
    let mut out = before.to_owned();
    out.append(key);
    out.append("`");
    out
}

/// What the table lacks of what is expected, package by package.
pub fn staleness(expected: &Dict<Expected>, loaded: &Loaded) -> (r: Vec<String>)
    ensures
        r.deep_view() == differences(
            expected.deep_view(),
            recorded(*loaded),
            expected.deep_view().len() as int,
        ),
{
    let ghost want = expected.deep_view();
    let none: Dict<Entry> = Dict::new();
    let entries = match loaded {
        Loaded::Present(table) => &table.entries,
        _ => &none,
    };
    let ghost have = entries.deep_view();
    let mut out: Vec<String> = Vec::new();
    let mut i: usize = 0;
    assert(out.deep_view() =~= differences(want, have, 0));
    while i < expected.len()
        invariant
            want == expected.deep_view(),
            have == entries.deep_view(),
            i <= want.len(),
            out.deep_view() == differences(want, have, i as int),
        decreases want.len() - i,
    {
        let key = expected.key(i);
        let e = expected.value(i);
        assert(want[i as int] == (key@, e.deep_view()));
        let ghost prior = out.deep_view();
        match entries.get(key) {
            None => {
                let d = quoted("packages.toml has no entry for `", key);
                let ghost text = d@;
                out.push(d);
                assert(out.deep_view() =~= prior.push(text));
            },
            Some(found) => {
                if !same(found.url.as_str(), e.url.as_str()) {
                    let d = quoted("packages.toml records another url for `", key);
                    let ghost text = d@;
                    out.push(d);
                    assert(out.deep_view() =~= prior.push(text));
                } else if !same(found.sha512.as_str(), e.sha512.as_str()) {
                    let d = quoted("packages.toml records another integrity for `", key);
                    let ghost text = d@;
                    out.push(d);
                    assert(out.deep_view() =~= prior.push(text));
                }
            },
        }
        i += 1;
    }
    out
}

/// A table without differences records every expected package, at the expected
/// address and with the expected integrity.
pub proof fn no_difference_means_recorded(
    expected: Table<ExpectedModel>,
    entries: Table<EntryModel>,
    n: int,
    i: int,
)
    requires
        0 <= i < n <= expected.len(),
        differences(expected, entries, n).len() == 0,
    ensures
        lookup(entries, expected[i].0) is Some,
        lookup(entries, expected[i].0)->Some_0.url == expected[i].1.url,
        lookup(entries, expected[i].0)->Some_0.sha512 == expected[i].1.sha512,
    decreases n,
{
    if i < n - 1 {
        no_difference_means_recorded(expected, entries, n - 1, i);
    }
}

proof fn difference_is_listed(
    expected: Table<ExpectedModel>,
    entries: Table<EntryModel>,
    n: int,
    i: int,
)
    requires
        0 <= i < n <= expected.len(),
        difference(expected[i].0, expected[i].1, entries) is Some,
    ensures
        differences(expected, entries, n).contains(
            difference(expected[i].0, expected[i].1, entries)->Some_0,
        ),
    decreases n,
{
    let all = differences(expected, entries, n);
    let before = differences(expected, entries, n - 1);
    let d = difference(expected[i].0, expected[i].1, entries)->Some_0;
    if i == n - 1 {
        assert(all[all.len() - 1] == d);
    } else {
        difference_is_listed(expected, entries, n - 1, i);
        assert(all[before.index_of(d)] == d);
    }
}

/// Every expected package that is not recorded, or is recorded at another address or with
/// another integrity, is named with what is wrong.
pub proof fn every_difference_is_named(
    expected: Table<ExpectedModel>,
    entries: Table<EntryModel>,
    i: int,
)
    requires
        0 <= i < expected.len(),
    ensures
        ({
            let (key, want) = expected[i];
            let all = differences(expected, entries, expected.len() as int);
            &&& lookup(entries, key) is None ==> all.contains(
                "packages.toml has no entry for `"@ + key + "`"@,
            )
            &&& lookup(entries, key) is Some && lookup(entries, key)->Some_0.url != want.url
                ==> all.contains("packages.toml records another url for `"@ + key + "`"@)
            &&& lookup(entries, key) is Some && lookup(entries, key)->Some_0.url == want.url
                && lookup(entries, key)->Some_0.sha512 != want.sha512 ==> all.contains(
                "packages.toml records another integrity for `"@ + key + "`"@,
            )
        }),
{
    if difference(expected[i].0, expected[i].1, entries) is Some {
        difference_is_listed(expected, entries, expected.len() as int, i);
    }
}

/// A table that records every expected package at the expected address and with the
/// expected integrity has no differences, whatever else it records.
pub proof fn recorded_means_no_difference(
    expected: Table<ExpectedModel>,
    entries: Table<EntryModel>,
    n: int,
)
    requires
        0 <= n <= expected.len(),
        forall|i: int|
            0 <= i < n ==> lookup(entries, (#[trigger] expected[i]).0) is Some && lookup(
                entries,
                expected[i].0,
            )->Some_0.url == expected[i].1.url && lookup(entries, expected[i].0)->Some_0.sha512
                == expected[i].1.sha512,
    ensures
        differences(expected, entries, n) == Seq::<Seq<char>>::empty(),
    decreases n,
{
    if n > 0 {
        recorded_means_no_difference(expected, entries, n - 1);
        assert(lookup(entries, expected[n - 1].0) is Some);
    }
}

} // verus!
