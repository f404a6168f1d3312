//! The configuration that a TOML document spells out.

use vstd::prelude::*;

use crate::config::{
    default_file_name, default_fixup_registry, default_node_toolchain, default_registry_url,
    default_third_party_dir, url_text, BuckConfig, Platform, PlatformModel, RawConfig,
    RegistryConfig, Url,
};
use crate::dict::{as_map, put_all, put_all_push, value_from, Dict, NameSet};
use crate::lock::types::Table;
use crate::platform::{Cpu, Libc, Os};
use crate::text::same;
use crate::toml_doc::{entries_model, entry, table_is_entries, toml_model, Toml, TomlModel};

verus! {

// --- Single values ----------------------------------------------------------------------

/// The text under a key, or the default where the key is left out. A value of another kind
/// is none.
pub open spec fn text_or(
    t: Table<TomlModel>,
    key: Seq<char>,
    default: Seq<char>,
) -> Option<Seq<char>> {
    match value_from(t, key, 0) {
        None => Some(default),
        Some(TomlModel::Text(s)) => Some(s),
        Some(_) => None,
    }
}

fn read_text_or(entries: &Vec<(String, Toml)>, key: &str, default: String) -> (r: Option<String>)
    ensures
        r.deep_view() == text_or(entries_model(entries@), key@, default@),
{
    match entry(entries, key) {
        None => Some(default),
        Some(Toml::Text(s)) => Some(s.clone()),
        Some(_) => None,
    }
}

/// The flag under a key, or the default where the key is left out.
pub open spec fn flag_or(t: Table<TomlModel>, key: Seq<char>, default: bool) -> Option<bool> {
    match value_from(t, key, 0) {
        None => Some(default),
        Some(TomlModel::Flag(b)) => Some(b),
        Some(_) => None,
    }
}

fn read_flag_or(entries: &Vec<(String, Toml)>, key: &str, default: bool) -> (r: Option<bool>)
    ensures
        r == flag_or(entries_model(entries@), key@, default),
{
    match entry(entries, key) {
        None => Some(default),
        Some(Toml::Flag(b)) => Some(*b),
        Some(_) => None,
    }
}

/// The table under a key, empty where the key is left out.
pub open spec fn section_of(t: Table<TomlModel>, key: Seq<char>) -> Option<Table<TomlModel>> {
    match value_from(t, key, 0) {
        None => Some(Seq::empty()),
        Some(TomlModel::Table(inner)) => Some(inner),
        Some(_) => None,
    }
}

/// Every key is a known one.
pub open spec fn only_keys(t: Table<TomlModel>, known: Seq<Seq<char>>) -> bool {
    forall|i: int| 0 <= i < t.len() ==> known.contains((#[trigger] t[i]).0)
}

/// The names as texts.
pub open spec fn names_model(names: Seq<&str>) -> Seq<Seq<char>> {
    Seq::new(names.len(), |i: int| names[i]@)
}

fn is_known(name: &str, known: &Vec<&str>) -> (r: bool)
    ensures
        r == names_model(known@).contains(name@),
{
    let ghost names = names_model(known@);
    let mut j: usize = 0;
    while j < known.len()
        invariant
            names == names_model(known@),
            j <= known.len(),
            forall|k: int| 0 <= k < j ==> #[trigger] names[k] != name@,
        decreases known.len() - j,
    {
        if same(name, known[j]) {
            assert(names[j as int] == name@);
            return true;
        }
        j += 1;
    }
    false
}

fn has_only(entries: &Vec<(String, Toml)>, known: &Vec<&str>) -> (r: bool)
    ensures
        r == only_keys(entries_model(entries@), names_model(known@)),
{
    let ghost t = entries_model(entries@);
    let ghost names = names_model(known@);
    let mut i: usize = 0;
    while i < entries.len()
        invariant
            t == entries_model(entries@),
            names == names_model(known@),
            i <= entries.len(),
            forall|k: int| 0 <= k < i ==> names.contains((#[trigger] t[k]).0),
        decreases entries.len() - i,
    {
        assert(t[i as int].0 == entries@[i as int].0@);
        if !is_known(entries[i].0.as_str(), known) {
            return false;
        }
        i += 1;
    }
    true
}

// --- Lists ------------------------------------------------------------------------------

/// The texts of a list that holds only texts.
pub open spec fn texts_of(v: TomlModel) -> Option<Seq<Seq<char>>> {
    match v {
        TomlModel::List(items) => if forall|i: int| 0 <= i < items.len() ==> #[trigger] items[i] is Text {
            Some(Seq::new(items.len(), |i: int| items[i]->Text_0))
        } else {
            None
        },
        _ => None,
    }
}

fn read_texts(v: &Toml) -> (r: Option<Vec<String>>)
    ensures
        r.deep_view() == texts_of(toml_model(*v)),
{
    let ghost m = toml_model(*v);
    match v {
        Toml::List(items) => {
            let ghost list = m->List_0;
            let mut texts: Vec<String> = Vec::new();
            let mut i: usize = 0;
            while i < items.len()
                invariant
                    m == toml_model(*v),
                    m == toml_model(Toml::List(*items)),
                    m == TomlModel::List(list),
                    list.len() == items.len(),
                    i <= items.len(),
                    texts.len() == i,
                    forall|k: int|
                        0 <= k < i ==> #[trigger] list[k] is Text && texts@[k]@ == list[k]->Text_0,
                decreases items.len() - i,
            {
                assert(list[i as int] == toml_model(items@[i as int]));
                match &items[i] {
                    Toml::Text(s) => {
                        texts.push(s.clone());
                    },
                    _ => {
                        assert(!(list[i as int] is Text));
                        return None;
                    },
                }
                i += 1;
            }
            proof {
                let r: Option<Vec<String>> = Some(texts);
                assert(texts.deep_view() =~= Seq::new(list.len(), |i: int| list[i]->Text_0));
                assert(r.deep_view() == Some(texts.deep_view()));
            }
            Some(texts)
        },
        _ => None,
    }
}

// --- Platforms --------------------------------------------------------------------------

pub open spec fn os_named(v: Option<TomlModel>) -> Option<Os> {
    match v {
        Some(TomlModel::Text(s)) => if s == Os::Linux.npm() {
            Some(Os::Linux)
        } else if s == Os::Darwin.npm() {
            Some(Os::Darwin)
        } else if s == Os::Win32.npm() {
            Some(Os::Win32)
        } else {
            None
        },
        _ => None,
    }
}

pub open spec fn cpu_named(v: Option<TomlModel>) -> Option<Cpu> {
    match v {
        Some(TomlModel::Text(s)) => if s == Cpu::X64.npm() {
            Some(Cpu::X64)
        } else if s == Cpu::Arm64.npm() {
            Some(Cpu::Arm64)
        } else {
            None
        },
        _ => None,
    }
}

/// The library that is named, none where the key is left out.
pub open spec fn libc_named(v: Option<TomlModel>) -> Option<Option<Libc>> {
    match v {
        None => Some(None),
        Some(TomlModel::Text(s)) => if s == Libc::Glibc.npm() {
            Some(Some(Libc::Glibc))
        } else if s == Libc::Musl.npm() {
            Some(Some(Libc::Musl))
        } else {
            None
        },
        Some(_) => None,
    }
}

pub open spec fn labels_of(v: Option<TomlModel>) -> Option<Option<Seq<Seq<char>>>> {
    match v {
        None => Some(None),
        Some(list) => match texts_of(list) {
            Some(texts) => Some(Some(texts)),
            None => None,
        },
    }
}

/// The platform that a table spells out.
pub open spec fn platform_of(v: TomlModel) -> Option<PlatformModel> {
    match v {
        TomlModel::Table(t) => if !only_keys(t, seq!["os"@, "cpu"@, "libc"@, "constraints"@]) {
            None
        } else {
            match (
                os_named(value_from(t, "os"@, 0)),
                cpu_named(value_from(t, "cpu"@, 0)),
                libc_named(value_from(t, "libc"@, 0)),
                labels_of(value_from(t, "constraints"@, 0)),
            ) {
                (Some(os), Some(cpu), Some(libc), Some(constraints)) => Some(
                    PlatformModel { os, cpu, libc, constraints },
                ),
                _ => None,
            }
        },
        _ => None,
    }
}

fn read_os(v: Option<&Toml>) -> (r: Option<Os>)
    ensures
        r == os_named(match v {
            Some(t) => Some(toml_model(*t)),
            None => None,
        }),
{
    match v {
        Some(Toml::Text(s)) => if same(s.as_str(), Os::Linux.as_npm()) {
            Some(Os::Linux)
        } else if same(s.as_str(), Os::Darwin.as_npm()) {
            Some(Os::Darwin)
        } else if same(s.as_str(), Os::Win32.as_npm()) {
            Some(Os::Win32)
        } else {
            None
        },
        _ => None,
    }
}

fn read_cpu(v: Option<&Toml>) -> (r: Option<Cpu>)
    ensures
        r == cpu_named(match v {
            Some(t) => Some(toml_model(*t)),
            None => None,
        }),
{
    match v {
        Some(Toml::Text(s)) => if same(s.as_str(), Cpu::X64.as_npm()) {
            Some(Cpu::X64)
        } else if same(s.as_str(), Cpu::Arm64.as_npm()) {
            Some(Cpu::Arm64)
        } else {
            None
        },
        _ => None,
    }
}

fn read_libc(v: Option<&Toml>) -> (r: Option<Option<Libc>>)
    ensures
        r == libc_named(match v {
            Some(t) => Some(toml_model(*t)),
            None => None,
        }),
{
    match v {
        None => Some(None),
        Some(Toml::Text(s)) => if same(s.as_str(), Libc::Glibc.as_npm()) {
            Some(Some(Libc::Glibc))
        } else if same(s.as_str(), Libc::Musl.as_npm()) {
            Some(Some(Libc::Musl))
        } else {
            None
        },
        Some(_) => None,
    }
}

fn read_platform(v: &Toml) -> (r: Option<Platform>)
    ensures
        r.deep_view() == platform_of(toml_model(*v)),
{
    let entries = match v {
        Toml::Table(entries) => entries,
        _ => {
            return None;
        },
    };
    proof {
        table_is_entries(*entries);
    }
    let known = vec!["os", "cpu", "libc", "constraints"];
    assert(names_model(known@) =~= seq!["os"@, "cpu"@, "libc"@, "constraints"@]);
    if !has_only(entries, &known) {
        return None;
    }
    let os = match read_os(entry(entries, "os")) {
        Some(os) => os,
        None => {
            return None;
        },
    };
    let cpu = match read_cpu(entry(entries, "cpu")) {
        Some(cpu) => cpu,
        None => {
            return None;
        },
    };
    let libc = match read_libc(entry(entries, "libc")) {
        Some(libc) => libc,
        None => {
            return None;
        },
    };
    let constraints = match entry(entries, "constraints") {
        None => None,
        Some(list) => match read_texts(list) {
            Some(texts) => Some(texts),
            None => {
                return None;
            },
        },
    };
    Some(Platform { os, cpu, libc, constraints })
}

/// The platforms of a table that holds only platforms.
pub open spec fn platforms_of(t: Table<TomlModel>) -> Option<Table<PlatformModel>> {
    if forall|i: int| 0 <= i < t.len() ==> platform_of((#[trigger] t[i]).1) is Some {
        Some(Seq::new(t.len(), |i: int| (t[i].0, platform_of(t[i].1)->Some_0)))
    } else {
        None
    }
}

fn read_platforms(entries: &Vec<(String, Toml)>) -> (r: Option<Dict<Platform>>)
    ensures
        match (platforms_of(entries_model(entries@)), r) {
            (Some(list), Some(d)) => as_map(d.deep_view()) == put_all(
                Map::<Seq<char>, PlatformModel>::empty(),
                list,
            ),
            (None, None) => true,
            _ => false,
        },
{
    let ghost t = entries_model(entries@);
    let ghost list = Seq::new(t.len(), |i: int| (t[i].0, platform_of(t[i].1)->Some_0));
    let ghost none = Map::<Seq<char>, PlatformModel>::empty();
    let mut d: Dict<Platform> = Dict::new();
    let mut i: usize = 0;
    assert(list.take(0) =~= Seq::empty());
    assert(as_map(d.deep_view()) =~= none);
    while i < entries.len()
        invariant
            t == entries_model(entries@),
            list == Seq::new(t.len(), |i: int| (t[i].0, platform_of(t[i].1)->Some_0)),
            none == Map::<Seq<char>, PlatformModel>::empty(),
            i <= entries.len(),
            forall|k: int| 0 <= k < i ==> platform_of((#[trigger] t[k]).1) is Some,
            as_map(d.deep_view()) == put_all(none, list.take(i as int)),
        decreases entries.len() - i,
    {
        assert(t[i as int] == (entries@[i as int].0@, toml_model(entries@[i as int].1)));
        let p = match read_platform(&entries[i].1) {
            Some(p) => p,
            None => {
                return None;
            },
        };
        proof {
            put_all_push(none, list.take(i as int), list[i as int]);
            assert(list.take(i + 1) =~= list.take(i as int).push(list[i as int]));
        }
        d.insert(entries[i].0.clone(), p);
        i += 1;
    }
    assert(list.take(list.len() as int) =~= list);
    Some(d)
}

// --- Registries -------------------------------------------------------------------------

/// The normal form of a value that is a URL.
pub open spec fn url_of(v: TomlModel) -> Option<Seq<char>> {
    match v {
        TomlModel::Text(s) => url_text(s),
        _ => None,
    }
}

fn read_url(v: &Toml) -> (r: Option<Url>)
    ensures
        r.deep_view() == url_of(toml_model(*v)),
{
    match v {
        Toml::Text(s) => Url::parse(s.as_str()),
        _ => None,
    }
}

/// The default registry.
pub open spec fn default_of(t: Table<TomlModel>) -> Option<Seq<char>> {
    match value_from(t, "default"@, 0) {
        Some(v) => url_of(v),
        None => url_text("https://registry.npmjs.org"@),
    }
}

/// The registries of single scopes among the first `n` entries: all but the default.
pub open spec fn scopes_of(t: Table<TomlModel>, n: int) -> Option<Table<Seq<char>>>
    decreases n,
{
    if n <= 0 {
        Some(Seq::empty())
    } else {
        match scopes_of(t, n - 1) {
            None => None,
            Some(before) => if t[n - 1].0 == "default"@ {
                Some(before)
            } else {
                match url_of(t[n - 1].1) {
                    Some(url) => Some(before.push((t[n - 1].0, url))),
                    None => None,
                }
            },
        }
    }
}

proof fn scopes_need_all(t: Table<TomlModel>, n: int, m: int)
    requires
        n <= m,
        scopes_of(t, n) is None,
    ensures
        scopes_of(t, m) is None,
    decreases m - n,
{
    if n < m {
        scopes_need_all(t, n, m - 1);
    }
}

fn read_scopes(entries: &Vec<(String, Toml)>) -> (r: Option<Dict<Url>>)
    ensures
        match (scopes_of(entries_model(entries@), entries@.len() as int), r) {
            (Some(list), Some(d)) => as_map(d.deep_view()) == put_all(
                Map::<Seq<char>, Seq<char>>::empty(),
                list,
            ),
            (None, None) => true,
            _ => false,
        },
{
    let ghost t = entries_model(entries@);
    let ghost none = Map::<Seq<char>, Seq<char>>::empty();
    let mut d: Dict<Url> = Dict::new();
    let mut i: usize = 0;
    assert(as_map(d.deep_view()) =~= none);
    while i < entries.len()
        invariant
            t == entries_model(entries@),
            none == Map::<Seq<char>, Seq<char>>::empty(),
            i <= entries.len(),
            scopes_of(t, i as int) is Some,
            as_map(d.deep_view()) == put_all(none, scopes_of(t, i as int)->Some_0),
        decreases entries.len() - i,
    {
        assert(t[i as int] == (entries@[i as int].0@, toml_model(entries@[i as int].1)));
        if !same(entries[i].0.as_str(), "default") {
            let url = match read_url(&entries[i].1) {
                Some(url) => url,
                None => {
                    proof {
                        assert(scopes_of(t, i + 1) is None);
                        scopes_need_all(t, i + 1, t.len() as int);
                    }
                    return None;
                },
            };
            proof {
                put_all_push(none, scopes_of(t, i as int)->Some_0, (t[i as int].0, url@));
            }
            d.insert(entries[i].0.clone(), url);
        }
        i += 1;
    }
    Some(d)
}

// --- The whole --------------------------------------------------------------------------

/// What a document spells out, lists in document order.
pub struct RawModel {
    pub lockfile_path: Seq<char>,
    pub third_party_dir: Seq<char>,
    pub platforms: Table<PlatformModel>,
    pub default: Seq<char>,
    pub scopes: Table<Seq<char>>,
    pub fixup_registry: Seq<char>,
    pub registry_rev: Option<Seq<char>>,
    pub allow_local_overrides: bool,
    pub scripts_allow: Seq<Seq<char>>,
    pub file_name: Seq<char>,
    pub node_toolchain: Seq<char>,
}

/// These values are what was spelled out.
pub open spec fn raw_is(raw: RawConfig, m: RawModel) -> bool {
    &&& raw.lockfile_path@ == m.lockfile_path
    &&& raw.third_party_dir@ == m.third_party_dir
    &&& as_map(raw.platforms.deep_view()) == put_all(
        Map::<Seq<char>, PlatformModel>::empty(),
        m.platforms,
    )
    &&& raw.registry.default@ == m.default
    &&& as_map(raw.registry.scopes.deep_view()) == put_all(
        Map::<Seq<char>, Seq<char>>::empty(),
        m.scopes,
    )
    &&& raw.fixup_registry@ == m.fixup_registry
    &&& raw.registry_rev.deep_view() == m.registry_rev
    &&& raw.allow_local_overrides == m.allow_local_overrides
    &&& raw.scripts_allow.deep_view().to_set() == m.scripts_allow.to_set()
    &&& raw.buck.file_name@ == m.file_name
    &&& raw.buck.node_toolchain@ == m.node_toolchain
}

/// The text under a key that may be left out.
pub open spec fn text_at(t: Table<TomlModel>, key: Seq<char>) -> Option<Option<Seq<char>>> {
    match value_from(t, key, 0) {
        None => Some(None),
        Some(TomlModel::Text(s)) => Some(Some(s)),
        Some(_) => None,
    }
}

/// The list under a key, empty where the key is left out.
pub open spec fn texts_at(t: Table<TomlModel>, key: Seq<char>) -> Option<Seq<Seq<char>>> {
    match value_from(t, key, 0) {
        None => Some(Seq::empty()),
        Some(v) => texts_of(v),
    }
}

/// What `[fixups]` sets: the registry, its revision, and whether local overrides count.
pub open spec fn fixups_of(t: Table<TomlModel>) -> Option<(Seq<char>, Option<Seq<char>>, bool)> {
    if !only_keys(t, seq!["registry"@, "registry_rev"@, "allow_local_overrides"@]) {
        None
    } else {
        match (
            text_or(t, "registry"@, "none"@),
            text_at(t, "registry_rev"@),
            flag_or(t, "allow_local_overrides"@, true),
        ) {
            (Some(registry), Some(rev), Some(local)) => Some((registry, rev, local)),
            _ => None,
        }
    }
}

/// What `[scripts]` sets: the packages whose scripts are acknowledged.
pub open spec fn scripts_of(t: Table<TomlModel>) -> Option<Seq<Seq<char>>> {
    if !only_keys(t, seq!["allow"@]) {
        None
    } else {
        texts_at(t, "allow"@)
    }
}

/// What `[buck]` sets: the file name and the toolchain.
pub open spec fn buck_of(t: Table<TomlModel>) -> Option<(Seq<char>, Seq<char>)> {
    if !only_keys(t, seq!["file_name"@, "node_toolchain"@]) {
        None
    } else {
        match (
            text_or(t, "file_name"@, "BUCK"@),
            text_or(t, "node_toolchain"@, "toolchains//:node"@),
        ) {
            (Some(file_name), Some(node_toolchain)) => Some((file_name, node_toolchain)),
            _ => None,
        }
    }
}

/// What `[registry]` sets: the default and the scopes.
pub open spec fn registry_of(t: Table<TomlModel>) -> Option<(Seq<char>, Table<Seq<char>>)> {
    match (default_of(t), scopes_of(t, t.len() as int)) {
        (Some(default), Some(scopes)) => Some((default, scopes)),
        _ => None,
    }
}

/// The keys a document can set.
pub open spec fn top_keys() -> Seq<Seq<char>> {
    seq![
        "lockfile_path"@,
        "third_party_dir"@,
        "platforms"@,
        "registry"@,
        "fixups"@,
        "scripts"@,
        "buck"@,
    ]
}

/// The part of a document under one key, read by one of the functions above.
pub open spec fn part_of<A>(
    t: Table<TomlModel>,
    key: Seq<char>,
    read: spec_fn(Table<TomlModel>) -> Option<A>,
) -> Option<A> {
    match section_of(t, key) {
        Some(inner) => read(inner),
        None => None,
    }
}

/// The configuration that a document spells out. A document in which a key is unknown,
/// the lockfile is left out, or a value is not of its kind spells out none.
pub open spec fn raw_of(t: Table<TomlModel>) -> Option<RawModel> {
    if !only_keys(t, top_keys()) {
        None
    } else {
        match (
            text_at(t, "lockfile_path"@),
            text_or(t, "third_party_dir"@, "third-party/js"@),
            part_of(t, "platforms"@, |inner: Table<TomlModel>| platforms_of(inner)),
            part_of(t, "registry"@, |inner: Table<TomlModel>| registry_of(inner)),
            part_of(t, "fixups"@, |inner: Table<TomlModel>| fixups_of(inner)),
            part_of(t, "scripts"@, |inner: Table<TomlModel>| scripts_of(inner)),
            part_of(t, "buck"@, |inner: Table<TomlModel>| buck_of(inner)),
        ) {
            (
                Some(Some(lockfile_path)),
                Some(third_party_dir),
                Some(platforms),
                Some(registry),
                Some(fixups),
                Some(scripts_allow),
                Some(buck),
            ) => Some(
                RawModel {
                    lockfile_path,
                    third_party_dir,
                    platforms,
                    default: registry.0,
                    scopes: registry.1,
                    fixup_registry: fixups.0,
                    registry_rev: fixups.1,
                    allow_local_overrides: fixups.2,
                    scripts_allow,
                    file_name: buck.0,
                    node_toolchain: buck.1,
                },
            ),
            _ => None,
        }
    }
}

/// The configuration that a document spells out, if it is a table that does.
pub open spec fn doc_raw(doc: TomlModel) -> Option<RawModel> {
    match doc {
        TomlModel::Table(t) => raw_of(t),
        _ => None,
    }
}

/// The table under a key; `empty` where the key is left out.
fn section<'a>(
    entries: &'a Vec<(String, Toml)>,
    key: &str,
    empty: &'a Vec<(String, Toml)>,
) -> (r: Option<&'a Vec<(String, Toml)>>)
    requires
        empty@.len() == 0,
    ensures
        match r {
            Some(inner) => section_of(entries_model(entries@), key@) == Some(
                entries_model(inner@),
            ),
            None => section_of(entries_model(entries@), key@) is None,
        },
{
    match entry(entries, key) {
        None => {
            assert(entries_model(empty@) =~= Seq::empty());
            Some(empty)
        },
        Some(Toml::Table(inner)) => {
            proof {
                table_is_entries(*inner);
            }
            Some(inner)
        },
        Some(_) => None,
    }
}

fn read_text_at(entries: &Vec<(String, Toml)>, key: &str) -> (r: Option<Option<String>>)
    ensures
        match r {
            Some(t) => text_at(entries_model(entries@), key@) == Some(t.deep_view()),
            None => text_at(entries_model(entries@), key@) is None,
        },
{
    match entry(entries, key) {
        None => Some(None),
        Some(Toml::Text(s)) => Some(Some(s.clone())),
        Some(_) => None,
    }
}

fn read_registry(entries: &Vec<(String, Toml)>) -> (r: Option<RegistryConfig>)
    ensures
        match (registry_of(entries_model(entries@)), r) {
            (Some(m), Some(c)) => c.default@ == m.0 && as_map(c.scopes.deep_view()) == put_all(
                Map::<Seq<char>, Seq<char>>::empty(),
                m.1,
            ),
            (None, None) => true,
            _ => false,
        },
{
    let default = match entry(entries, "default") {
        Some(v) => read_url(v),
        None => Some(default_registry_url()),
    };
    match (default, read_scopes(entries)) {
        (Some(default), Some(scopes)) => Some(RegistryConfig { default, scopes }),
        _ => None,
    }
}

fn read_fixups(entries: &Vec<(String, Toml)>) -> (r: Option<(String, Option<String>, bool)>)
    ensures
        match (fixups_of(entries_model(entries@)), r) {
            (Some(m), Some(f)) => f.0@ == m.0 && f.1.deep_view() == m.1 && f.2 == m.2,
            (None, None) => true,
            _ => false,
        },
{
    let known = vec!["registry", "registry_rev", "allow_local_overrides"];
    assert(names_model(known@) =~= seq!["registry"@, "registry_rev"@, "allow_local_overrides"@]);
    if !has_only(entries, &known) {
        return None;
    }
    match (
        read_text_or(entries, "registry", default_fixup_registry()),
        read_text_at(entries, "registry_rev"),
        read_flag_or(entries, "allow_local_overrides", true),
    ) {
        (Some(registry), Some(rev), Some(local)) => Some((registry, rev, local)),
        _ => None,
    }
}

/// The members of a list, without order or repetition.
fn name_set(texts: &Vec<String>) -> (r: NameSet)
    ensures
        r.deep_view().to_set() == texts.deep_view().to_set(),
{
    let ghost list = texts.deep_view();
    let mut names = NameSet::new();
    let mut i: usize = 0;
    assert(names.deep_view().to_set() =~= list.take(0).to_set());
    while i < texts.len()
        invariant
            list == texts.deep_view(),
            i <= texts.len(),
            names.deep_view().to_set() == list.take(i as int).to_set(),
        decreases texts.len() - i,
    {
        proof {
            let longer = list.take(i + 1);
            assert(longer =~= list.take(i as int).push(list[i as int]));
            assert forall|k: Seq<char>| longer.to_set().contains(k) == list.take(
                i as int,
            ).to_set().insert(list[i as int]).contains(k) by {
                if list.take(i as int).contains(k) {
                    let j = list.take(i as int).index_of(k);
                    assert(longer[j] == k);
                }
                if longer.contains(k) {
                    let j = longer.index_of(k);
                    if j < i {
                        assert(list.take(i as int)[j] == k);
                    }
                }
                assert(longer[i as int] == list[i as int]);
            }
            assert(longer.to_set() =~= list.take(i as int).to_set().insert(list[i as int]));
        }
        names.insert(texts[i].clone());
        i += 1;
    }
    assert(list.take(list.len() as int) =~= list);
    names
}

fn read_scripts(entries: &Vec<(String, Toml)>) -> (r: Option<NameSet>)
    ensures
        match (scripts_of(entries_model(entries@)), r) {
            (Some(texts), Some(names)) => names.deep_view().to_set() == texts.to_set(),
            (None, None) => true,
            _ => false,
        },
{
    let known = vec!["allow"];
    assert(names_model(known@) =~= seq!["allow"@]);
    if !has_only(entries, &known) {
        return None;
    }
    match entry(entries, "allow") {
        None => Some(NameSet::new()),
        Some(v) => match read_texts(v) {
            Some(texts) => Some(name_set(&texts)),
            None => None,
        },
    }
}

fn read_buck(entries: &Vec<(String, Toml)>) -> (r: Option<BuckConfig>)
    ensures
        match (buck_of(entries_model(entries@)), r) {
            (Some(m), Some(b)) => b.file_name@ == m.0 && b.node_toolchain@ == m.1,
            (None, None) => true,
            _ => false,
        },
{
    let known = vec!["file_name", "node_toolchain"];
    assert(names_model(known@) =~= seq!["file_name"@, "node_toolchain"@]);
    if !has_only(entries, &known) {
        return None;
    }
    match (
        read_text_or(entries, "file_name", default_file_name()),
        read_text_or(entries, "node_toolchain", default_node_toolchain()),
    ) {
        (Some(file_name), Some(node_toolchain)) => Some(BuckConfig { file_name, node_toolchain }),
        _ => None,
    }
}

fn knows_all(entries: &Vec<(String, Toml)>) -> (r: bool)
    ensures
        r == only_keys(entries_model(entries@), top_keys()),
{
    let known = vec![
        "lockfile_path",
        "third_party_dir",
        "platforms",
        "registry",
        "fixups",
        "scripts",
        "buck",
    ];
    assert(names_model(known@) =~= top_keys());
    has_only(entries, &known)
}

/// Reads the configuration that a document spells out.
pub fn read_raw(doc: &Toml) -> (r: Option<RawConfig>)
    ensures
        match (doc_raw(toml_model(*doc)), r) {
            (Some(m), Some(raw)) => raw_is(raw, m),
            (None, None) => true,
            _ => false,
        },
{
    let entries = match doc {
        Toml::Table(entries) => entries,
        _ => {
            return None;
        },
    };
    proof {
        table_is_entries(*entries);
    }
    if !knows_all(entries) {
        return None;
    }
    let empty: Vec<(String, Toml)> = Vec::new();
    let lockfile_path = match read_text_at(entries, "lockfile_path") {
        Some(Some(path)) => path,
        _ => {
            return None;
        },
    };
    let third_party_dir = match read_text_or(
        entries,
        "third_party_dir",
        default_third_party_dir(),
    ) {
        Some(dir) => dir,
        None => {
            return None;
        },
    };
    let platforms = match section(entries, "platforms", &empty) {
        Some(inner) => read_platforms(inner),
        None => None,
    };
    let registry = match section(entries, "registry", &empty) {
        Some(inner) => read_registry(inner),
        None => None,
    };
    let fixups = match section(entries, "fixups", &empty) {
        Some(inner) => read_fixups(inner),
        None => None,
    };
    let scripts = match section(entries, "scripts", &empty) {
        Some(inner) => read_scripts(inner),
        None => None,
    };
    let buck = match section(entries, "buck", &empty) {
        Some(inner) => read_buck(inner),
        None => None,
    };
    match (platforms, registry, fixups, scripts, buck) {
        (Some(platforms), Some(registry), Some(fixups), Some(scripts_allow), Some(buck)) => Some(
            RawConfig {
                lockfile_path,
                third_party_dir,
                platforms,
                registry,
                fixup_registry: fixups.0,
                registry_rev: fixups.1,
                allow_local_overrides: fixups.2,
                scripts_allow,
                buck,
            },
        ),
        _ => None,
    }
}

// --- Laws -------------------------------------------------------------------------------

/// The value that a document sets under a key of a section.
pub open spec fn set_in(t: Table<TomlModel>, section: Seq<char>, key: Seq<char>) -> Option<
    TomlModel,
> {
    match value_from(t, section, 0) {
        Some(TomlModel::Table(inner)) => value_from(inner, key, 0),
        _ => None,
    }
}

/// A text is the one that is set, or the default where none is.
pub open spec fn is_set_or(v: Option<TomlModel>, got: Seq<char>, default: Seq<char>) -> bool {
    match v {
        Some(x) => x == TomlModel::Text(got),
        None => got == default,
    }
}

/// A table spells a platform out, in the words of npm.
pub open spec fn spells_platform(v: TomlModel, p: PlatformModel) -> bool {
    &&& v is Table
    &&& value_from(v->Table_0, "os"@, 0) == Some(TomlModel::Text(p.os.npm()))
    &&& value_from(v->Table_0, "cpu"@, 0) == Some(TomlModel::Text(p.cpu.npm()))
    &&& value_from(v->Table_0, "libc"@, 0) == match p.libc {
        Some(l) => Some(TomlModel::Text(l.npm())),
        None => None,
    }
    &&& match p.constraints {
        Some(labels) => value_from(v->Table_0, "constraints"@, 0) is Some && lists_texts(
            value_from(v->Table_0, "constraints"@, 0)->Some_0,
            labels,
        ),
        None => value_from(v->Table_0, "constraints"@, 0) is None,
    }
}

/// A value is the list of these texts.
pub open spec fn lists_texts(v: TomlModel, texts: Seq<Seq<char>>) -> bool {
    &&& v is List
    &&& v->List_0.len() == texts.len()
    &&& forall|i: int|
        0 <= i < texts.len() ==> #[trigger] v->List_0[i] == TomlModel::Text(texts[i])
}

/// What a configuration holds is what the document sets, key by key, and the default
/// where it sets nothing.
pub proof fn a_document_is_read_as_it_is_spelled(t: Table<TomlModel>)
    requires
        raw_of(t) is Some,
    ensures
        ({
            let m = raw_of(t)->Some_0;
            let platforms = value_from(t, "platforms"@, 0);
            &&& value_from(t, "lockfile_path"@, 0) == Some(TomlModel::Text(m.lockfile_path))
            &&& is_set_or(
                value_from(t, "third_party_dir"@, 0),
                m.third_party_dir,
                "third-party/js"@,
            )
            &&& is_set_or(set_in(t, "fixups"@, "registry"@), m.fixup_registry, "none"@)
            &&& set_in(t, "fixups"@, "registry_rev"@) == match m.registry_rev {
                Some(rev) => Some(TomlModel::Text(rev)),
                None => None,
            }
            &&& match set_in(t, "fixups"@, "allow_local_overrides"@) {
                Some(v) => v == TomlModel::Flag(m.allow_local_overrides),
                None => m.allow_local_overrides,
            }
            &&& match set_in(t, "scripts"@, "allow"@) {
                Some(v) => lists_texts(v, m.scripts_allow),
                None => m.scripts_allow.len() == 0,
            }
            &&& is_set_or(set_in(t, "buck"@, "file_name"@), m.file_name, "BUCK"@)
            &&& is_set_or(
                set_in(t, "buck"@, "node_toolchain"@),
                m.node_toolchain,
                "toolchains//:node"@,
            )
            &&& platforms is None ==> m.platforms.len() == 0
            &&& platforms is Some ==> {
                &&& platforms->Some_0 is Table
                &&& platforms->Some_0->Table_0.len() == m.platforms.len()
                &&& forall|i: int|
                    0 <= i < m.platforms.len() ==> (#[trigger] m.platforms[i]).0
                        == platforms->Some_0->Table_0[i].0 && spells_platform(
                        platforms->Some_0->Table_0[i].1,
                        m.platforms[i].1,
                    )
            }
        }),
{
    let m = raw_of(t)->Some_0;
    if let Some(TomlModel::Table(p)) = value_from(t, "platforms"@, 0) {
        assert forall|i: int| 0 <= i < m.platforms.len() implies (#[trigger] m.platforms[i]).0
            == p[i].0 && spells_platform(p[i].1, m.platforms[i].1) by {
            assert(platform_of(p[i].1) is Some);
        }
    }
}

proof fn scopes_are(t: Table<TomlModel>, n: int, scope: Seq<char>, url: Seq<char>)
    requires
        0 <= n <= t.len(),
        scopes_of(t, n) is Some,
    ensures
        scopes_of(t, n)->Some_0.contains((scope, url)) <==> exists|i: int|
            {
                &&& 0 <= i < n
                &&& (#[trigger] t[i]).0 == scope
                &&& scope != "default"@
                &&& t[i].1 is Text
                &&& url_text(t[i].1->Text_0) == Some(url)
            },
    decreases n,
{
    broadcast use vstd::seq_lib::lemma_seq_contains_after_push;

    if n > 0 {
        scopes_are(t, n - 1, scope, url);
        let before = scopes_of(t, n - 1)->Some_0;
        if t[n - 1].0 != "default"@ {
            assert(scopes_of(t, n)->Some_0 == before.push((t[n - 1].0, url_of(t[n - 1].1)->Some_0)));
        }
    }
}

/// Every key of the registry's section but the default is a scope, with the address that
/// stands under it; the default is the address that is set, or the public registry's.
pub proof fn every_scope_is_read(
    t: Table<TomlModel>,
    inner: Table<TomlModel>,
    scope: Seq<char>,
    url: Seq<char>,
)
    requires
        raw_of(t) is Some,
        value_from(t, "registry"@, 0) == Some(TomlModel::Table(inner)),
    ensures
        raw_of(t)->Some_0.scopes.contains((scope, url)) <==> exists|i: int|
            {
                &&& 0 <= i < inner.len()
                &&& (#[trigger] inner[i]).0 == scope
                &&& scope != "default"@
                &&& inner[i].1 is Text
                &&& url_text(inner[i].1->Text_0) == Some(url)
            },
        match value_from(inner, "default"@, 0) {
            Some(v) => v is Text && url_text(v->Text_0) == Some(raw_of(t)->Some_0.default),
            None => url_text("https://registry.npmjs.org"@) == Some(raw_of(t)->Some_0.default),
        },
{
    scopes_are(inner, inner.len() as int, scope, url);
}

} // verus!
