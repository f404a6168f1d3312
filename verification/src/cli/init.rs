//! What `pudu init` scaffolds.

use vstd::prelude::*;

use crate::cli::toolchain::{
    applied, apply, block_text, is_target_name, managed_block, AppendOutcome, OutcomeModel, BEGIN,
};
use crate::config::{
    config_errors, default_file_name, default_node_toolchain, default_registry_url,
    default_third_party_dir, first_same, is_http, is_label, platform_errors, platforms_errors,
    same_machine, scope_errors, script_errors, Config, Platform, PlatformModel,
};
use crate::dict::{
    as_map, has_key, key_index_is, keys_increase, put_all, put_all_members, put_all_push, Dict,
};
use crate::error::{
    CliError, CliErrorModel, ConfigErrorModel, DeriveError, DeriveErrorModel, DeriveWarning,
    DeriveWarningModel, InitWarning, InitWarningModel,
};
use crate::lock::types::Table;
use crate::paths::{
    backslashes_become_slashes, diff_paths, is_rooted, join_path, joined, relative, slash_path,
    slashed,
};
use crate::platform::{Cpu, Libc, Os};
use crate::text::{
    find_from, find_is_first, index_from, index_from_finds, index_from_first, index_from_is,
    is_space, occurs_at, same, split, split_joined, split_on, split_plain, stands_in, text_lt,
    text_lt_irreflexive, trim_end, trim_end_at, trimmed_of,
};
use crate::toml_doc::{
    doc_text, lines_text, section_pushed, section_text, write_empty_list, write_flag, write_note,
    write_section, write_subsection, write_text, Line, Section, TomlModel,
};
use crate::yaml::{
    a_value_is_found_under_its_key, field_of, parse_yaml, text_in, untagged, yaml_model, yaml_of,
    Yaml, YamlModel,
};

verus! {

/// A platform matrix and what was left out of it.
#[derive(Debug, PartialEq)]
pub struct DerivedPlatforms {
    pub platforms: Dict<Platform>,
    pub warnings: Vec<DeriveWarning>,
}

// --- What the matrix is -----------------------------------------------------------

/// A platform's name: `linux-x64-gnu`, `darwin-arm64`.
pub open spec fn name_text(os: Os, cpu: Cpu, libc: Option<Libc>) -> Seq<char> {
    match libc {
        Some(l) => os.npm() + "-"@ + cpu.npm() + "-"@ + l.brief(),
        None => os.npm() + "-"@ + cpu.npm(),
    }
}

/// A platform under its name.
pub open spec fn named_platform(os: Os, cpu: Cpu, libc: Option<Libc>) -> (Seq<char>, PlatformModel) {
    (name_text(os, cpu, libc), PlatformModel { os, cpu, libc, constraints: None })
}

/// The texts among the first `n` items.
pub open spec fn texts_in(items: Seq<YamlModel>, n: int) -> Seq<Seq<char>>
    decreases n,
{
    if n <= 0 {
        Seq::empty()
    } else {
        match text_in(items[n - 1]) {
            Some(s) => texts_in(items, n - 1).push(s),
            None => texts_in(items, n - 1),
        }
    }
}

/// Some item is not a text.
pub open spec fn has_other_than_text(items: Seq<YamlModel>) -> bool {
    exists|i: int| 0 <= i < items.len() && text_in(#[trigger] items[i]) is None
}

/// The entry to show for an axis that is not a list.
pub open spec fn example_of(key: Seq<char>) -> Seq<char> {
    if key == "os"@ {
        "linux"@
    } else if key == "cpu"@ {
        "x64"@
    } else {
        "glibc"@
    }
}

/// The items of an axis: `None` where it is absent, an error where it is no list.
pub open spec fn axis_items(sa: YamlModel, key: Seq<char>) -> Result<
    Option<Seq<YamlModel>>,
    DeriveErrorModel,
> {
    match field_of(sa, key) {
        None => Ok(None),
        Some(entry) => match untagged(entry) {
            YamlModel::List(items) => Ok(Some(items)),
            _ => Err(DeriveErrorModel::AxisNotASequence { key, example: example_of(key) }),
        },
    }
}

/// The texts of an axis that is absent or a list.
pub open spec fn axis_texts(items: Option<Seq<YamlModel>>) -> Seq<Seq<char>> {
    match items {
        None => Seq::empty(),
        Some(items) => texts_in(items, items.len() as int),
    }
}

/// The warning for an axis that holds something other than texts: one, however
/// many there are.
pub open spec fn axis_warnings(items: Option<Seq<YamlModel>>, key: Seq<char>) -> Seq<
    DeriveWarningModel,
> {
    if items is Some && has_other_than_text(items->Some_0) {
        seq![DeriveWarningModel::NonStringAxisEntry { key }]
    } else {
        Seq::empty()
    }
}

/// The warnings for those of the first `n` keys that are no axis.
pub open spec fn key_warnings(pairs: Seq<(YamlModel, YamlModel)>, n: int) -> Seq<DeriveWarningModel>
    decreases n,
{
    if n <= 0 {
        Seq::empty()
    } else {
        let before = key_warnings(pairs, n - 1);
        match text_in(pairs[n - 1].0) {
            Some(k) => if k == "os"@ || k == "cpu"@ || k == "libc"@ {
                before
            } else {
                before.push(DeriveWarningModel::UnknownKey { key: k })
            },
            None => before,
        }
    }
}

/// The warnings for the block as a whole.
pub open spec fn block_warnings(sa: YamlModel) -> Seq<DeriveWarningModel> {
    match untagged(sa) {
        YamlModel::Mapping(pairs) => key_warnings(pairs, pairs.len() as int),
        _ => seq![DeriveWarningModel::SupportedArchitecturesNotAMapping],
    }
}

/// What an `os` entry asks for.
pub open spec fn os_of(raw: Seq<char>, host: Os) -> Result<Os, DeriveWarningModel> {
    if raw == "current"@ {
        Ok(host)
    } else if raw == "linux"@ {
        Ok(Os::Linux)
    } else if raw == "darwin"@ {
        Ok(Os::Darwin)
    } else if raw == "win32"@ {
        Err(DeriveWarningModel::Win32Skipped)
    } else {
        Err(DeriveWarningModel::UnknownOs { value: raw })
    }
}

/// What a `cpu` entry asks for.
pub open spec fn cpu_of(raw: Seq<char>, host: Cpu) -> Result<Cpu, DeriveWarningModel> {
    if raw == "current"@ {
        Ok(host)
    } else if raw == "x64"@ {
        Ok(Cpu::X64)
    } else if raw == "arm64"@ {
        Ok(Cpu::Arm64)
    } else {
        Err(DeriveWarningModel::UnknownCpu { value: raw })
    }
}

/// What a `libc` entry asks for.
pub open spec fn libc_of(raw: Seq<char>) -> Result<Libc, DeriveWarningModel> {
    if raw == "current"@ || raw == "glibc"@ {
        Ok(Libc::Glibc)
    } else if raw == "musl"@ {
        Ok(Libc::Musl)
    } else {
        Err(DeriveWarningModel::UnknownLibc { value: raw })
    }
}

/// The values that the first `n` entries ask for.
pub open spec fn wanted<T>(got: Seq<Result<T, DeriveWarningModel>>, n: int) -> Seq<T>
    decreases n,
{
    if n <= 0 {
        Seq::empty()
    } else {
        match got[n - 1] {
            Ok(v) => wanted(got, n - 1).push(v),
            Err(_) => wanted(got, n - 1),
        }
    }
}

/// The warnings that the first `n` entries give.
pub open spec fn refused<T>(got: Seq<Result<T, DeriveWarningModel>>, n: int) -> Seq<DeriveWarningModel>
    decreases n,
{
    if n <= 0 {
        Seq::empty()
    } else {
        match got[n - 1] {
            Ok(_) => refused(got, n - 1),
            Err(w) => refused(got, n - 1).push(w),
        }
    }
}

/// What each `os` entry asks for.
pub open spec fn os_entries(items: Option<Seq<YamlModel>>, host: Os) -> Seq<
    Result<Os, DeriveWarningModel>,
> {
    axis_texts(items).map_values(|raw: Seq<char>| os_of(raw, host))
}

/// What each `cpu` entry asks for.
pub open spec fn cpu_entries(items: Option<Seq<YamlModel>>, host: Cpu) -> Seq<
    Result<Cpu, DeriveWarningModel>,
> {
    axis_texts(items).map_values(|raw: Seq<char>| cpu_of(raw, host))
}

/// What each `libc` entry asks for.
pub open spec fn libc_entries(items: Option<Seq<YamlModel>>) -> Seq<Result<Libc, DeriveWarningModel>> {
    axis_texts(items).map_values(|raw: Seq<char>| libc_of(raw))
}

/// What an axis asks for; where it is absent, the fallback alone.
pub open spec fn chosen<T>(
    items: Option<Seq<YamlModel>>,
    got: Seq<Result<T, DeriveWarningModel>>,
    fallback: T,
) -> Seq<T> {
    match items {
        None => seq![fallback],
        Some(_) => wanted(got, got.len() as int),
    }
}

/// Those of `all` that are asked for, in the order of `all`, each once.
pub open spec fn in_order<T>(all: Seq<T>, asked: Seq<T>, n: int) -> Seq<T>
    decreases n,
{
    if n <= 0 {
        Seq::empty()
    } else if asked.contains(all[n - 1]) {
        in_order(all, asked, n - 1).push(all[n - 1])
    } else {
        in_order(all, asked, n - 1)
    }
}

/// The systems asked for, in order.
pub open spec fn sorted_oses(asked: Seq<Os>) -> Seq<Os> {
    in_order(seq![Os::Linux, Os::Darwin, Os::Win32], asked, 3)
}

/// The architectures asked for, in order.
pub open spec fn sorted_cpus(asked: Seq<Cpu>) -> Seq<Cpu> {
    in_order(seq![Cpu::X64, Cpu::Arm64], asked, 2)
}

/// The C libraries asked for, in order.
pub open spec fn sorted_libcs(asked: Seq<Libc>) -> Seq<Libc> {
    in_order(seq![Libc::Glibc, Libc::Musl], asked, 2)
}

/// The platforms of one system and architecture: on linux one per C library,
/// elsewhere one without.
pub open spec fn cell_of(os: Os, cpu: Cpu, libcs: Seq<Libc>) -> Table<PlatformModel> {
    if os is Linux {
        libcs.map_values(|l: Libc| named_platform(os, cpu, Some(l)))
    } else {
        seq![named_platform(os, cpu, None)]
    }
}

/// The platforms of one system and the first `n` architectures.
pub open spec fn row_of(os: Os, cpus: Seq<Cpu>, libcs: Seq<Libc>, n: int) -> Table<PlatformModel>
    decreases n,
{
    if n <= 0 {
        Seq::empty()
    } else {
        row_of(os, cpus, libcs, n - 1) + cell_of(os, cpus[n - 1], libcs)
    }
}

/// The cross product of the first `n` systems with the architectures and, on
/// linux, the C libraries.
pub open spec fn product_of(oses: Seq<Os>, cpus: Seq<Cpu>, libcs: Seq<Libc>, n: int) -> Table<
    PlatformModel,
>
    decreases n,
{
    if n <= 0 {
        Seq::empty()
    } else {
        product_of(oses, cpus, libcs, n - 1) + row_of(oses[n - 1], cpus, libcs, cpus.len() as int)
    }
}

/// The axes of a block, each absent or a list, or the first that is neither.
pub open spec fn axes_of(sa: YamlModel) -> Result<
    (Option<Seq<YamlModel>>, Option<Seq<YamlModel>>, Option<Seq<YamlModel>>),
    DeriveErrorModel,
> {
    match (axis_items(sa, "os"@), axis_items(sa, "cpu"@), axis_items(sa, "libc"@)) {
        (Err(e), _, _) => Err(e),
        (Ok(_), Err(e), _) => Err(e),
        (Ok(_), Ok(_), Err(e)) => Err(e),
        (Ok(os), Ok(cpu), Ok(libc)) => Ok((os, cpu, libc)),
    }
}

/// All warnings of a block, in the order in which it is read.
pub open spec fn all_warnings(
    sa: YamlModel,
    os: Option<Seq<YamlModel>>,
    cpu: Option<Seq<YamlModel>>,
    libc: Option<Seq<YamlModel>>,
    host_os: Os,
    host_cpu: Cpu,
) -> Seq<DeriveWarningModel> {
    let o = os_entries(os, host_os);
    let c = cpu_entries(cpu, host_cpu);
    let l = libc_entries(libc);
    block_warnings(sa) + axis_warnings(os, "os"@) + refused(o, o.len() as int) + axis_warnings(
        cpu,
        "cpu"@,
    ) + refused(c, c.len() as int) + axis_warnings(libc, "libc"@) + refused(l, l.len() as int)
}

/// The platforms without any `supportedArchitectures`.
pub open spec fn default_list() -> Table<PlatformModel> {
    seq![
        named_platform(Os::Linux, Cpu::X64, Some(Libc::Glibc)),
        named_platform(Os::Linux, Cpu::Arm64, Some(Libc::Glibc)),
        named_platform(Os::Darwin, Cpu::Arm64, None),
    ]
}

/// The axis that left the product empty.
pub open spec fn empty_axis(oses: Seq<Os>, cpus: Seq<Cpu>) -> Seq<char> {
    if oses.len() == 0 {
        "os"@
    } else if cpus.len() == 0 {
        "cpu"@
    } else {
        "libc"@
    }
}

/// The platforms, each under its name, and the warnings that a block expands to
/// on this host, or why it expands to none.
pub open spec fn expansion(sa: Option<YamlModel>, host_os: Os, host_cpu: Cpu) -> Result<
    (Table<PlatformModel>, Seq<DeriveWarningModel>),
    DeriveErrorModel,
> {
    match sa {
        None => Ok((default_list(), Seq::empty())),
        Some(sa) => match axes_of(sa) {
            Err(e) => Err(e),
            Ok((os, cpu, libc)) => {
                let oses = sorted_oses(chosen(os, os_entries(os, host_os), host_os));
                let cpus = sorted_cpus(chosen(cpu, cpu_entries(cpu, host_cpu), host_cpu));
                let libcs = sorted_libcs(chosen(libc, libc_entries(libc), Libc::Glibc));
                let warnings = all_warnings(sa, os, cpu, libc, host_os, host_cpu);
                let list = product_of(oses, cpus, libcs, oses.len() as int);
                if list.len() == 0 {
                    Err(
                        DeriveErrorModel::NoUsablePlatforms {
                            axis: empty_axis(oses, cpus),
                            warnings,
                        },
                    )
                } else {
                    Ok((list, warnings))
                }
            },
        },
    }
}

/// A result agrees with the expansion.
pub open spec fn derived_agrees(
    want: Result<(Table<PlatformModel>, Seq<DeriveWarningModel>), DeriveErrorModel>,
    got: Result<DerivedPlatforms, DeriveError>,
) -> bool {
    match (want, got) {
        (Ok((list, warnings)), Ok(d)) => as_map(d.platforms.deep_view()) == put_all(
            Map::empty(),
            list,
        ) && d.warnings.deep_view() == warnings,
        (Err(m), Err(e)) => e.deep_view() == m,
        _ => false,
    }
}

/// The `supportedArchitectures` block of a workspace file, if it has one.
pub open spec fn block_in(doc: YamlModel) -> Option<YamlModel> {
    match field_of(doc, "supportedArchitectures"@) {
        Some(sa) => if sa is Null {
            None
        } else {
            Some(sa)
        },
        None => None,
    }
}

/// A `pnpm-workspace.yaml`.
#[derive(Debug, PartialEq)]
pub struct Workspace {
    pub text: String,
    /// Its `supportedArchitectures`, if it has one, as a reader finds it that skips
    /// everything else, or that reader's message where the file is refused.
    pub reading: Result<Option<Yaml>, String>,
}

/// What a reader makes of a workspace file.
pub open spec fn reading_model(reading: Result<Option<Yaml>, String>) -> Result<
    Option<YamlModel>,
    Seq<char>,
> {
    match reading {
        Ok(Some(y)) => Ok(Some(yaml_model(y))),
        Ok(None) => Ok(None),
        Err(e) => Err(e@),
    }
}

/// What a workspace file expands to on this host, given what it holds as a document and
/// what the reader makes of it. The reader decides whether the file is accepted. A file
/// that is no document, since a part that nothing reads has a key twice, has the block
/// that the reader finds.
pub open spec fn parsed_expansion(
    doc: Result<YamlModel, Seq<char>>,
    reading: Result<Option<YamlModel>, Seq<char>>,
    host_os: Os,
    host_cpu: Cpu,
) -> Result<(Table<PlatformModel>, Seq<DeriveWarningModel>), DeriveErrorModel> {
    match (reading, doc) {
        (Err(source), _) => Err(
            DeriveErrorModel::WorkspaceParse { path: "pnpm-workspace.yaml"@, source },
        ),
        (Ok(_), Ok(doc)) => expansion(block_in(doc), host_os, host_cpu),
        (Ok(block), Err(_)) => expansion(block, host_os, host_cpu),
    }
}

/// What a workspace file expands to on this host.
pub open spec fn workspace_expansion(
    workspace: Option<Workspace>,
    host_os: Os,
    host_cpu: Cpu,
) -> Result<(Table<PlatformModel>, Seq<DeriveWarningModel>), DeriveErrorModel> {
    match workspace {
        None => expansion(None, host_os, host_cpu),
        Some(w) => parsed_expansion(
            yaml_of(w.text@),
            reading_model(w.reading),
            host_os,
            host_cpu,
        ),
    }
}

// --- Deriving it ------------------------------------------------------------------

/// Generated platform name: `linux-x64-gnu`, `darwin-arm64`.
pub fn platform_name(os: Os, cpu: Cpu, libc: Option<Libc>) -> (r: String)
    ensures
        r@ == name_text(os, cpu, libc),
{
    let mut out = os.as_npm().to_owned();
    out.append("-");
    out.append(cpu.as_npm());
    if let Some(l) = libc {
        out.append("-");
        out.append(l.short());
    }
    out
}

/// Read a `supportedArchitectures` axis into a list of strings.
///
/// An entry that is no string is warned about, once an axis; a bare scalar
/// (`os: linux` instead of `os: [linux]`) is an error.
fn axis(sa: &Yaml, key: &str, warnings: &mut Vec<DeriveWarning>) -> (r: Result<
    Option<Vec<String>>,
    DeriveError,
>)
    ensures
        match (axis_items(yaml_model(*sa), key@), r) {
            (Ok(items), Ok(got)) => {
                &&& got is Some == items is Some
                &&& got is Some ==> got->Some_0.deep_view() == axis_texts(items)
                &&& final(warnings).deep_view() == old(warnings).deep_view() + axis_warnings(
                    items,
                    key@,
                )
            },
            (Err(m), Err(e)) => e.deep_view() == m,
            _ => false,
        },
{
    let ghost before = warnings.deep_view();
    let entry = match sa.get(key) {
        None => {
            assert(before + axis_warnings(None, key@) =~= before);
            return Ok(None);
        },
        Some(entry) => entry,
    };
    let items = match entry.untag() {
        Yaml::List(items) => items,
        _ => {
            let example = if same(key, "os") {
                "linux"
            } else if same(key, "cpu") {
                "x64"
            } else {
                "glibc"
            };
            return Err(
                DeriveError::AxisNotASequence { key: key.to_owned(), example: example.to_owned() },
            );
        },
    };
    let ghost model = yaml_model(Yaml::List(*items))->List_0;
    let mut out: Vec<String> = Vec::new();
    let mut other = false;
    let mut i: usize = 0;
    assert(out.deep_view() =~= texts_in(model, 0));
    while i < items.len()
        invariant
            model == yaml_model(Yaml::List(*items))->List_0,
            model.len() == items.len(),
            i <= items.len(),
            out.deep_view() == texts_in(model, i as int),
            other <==> exists|k: int| 0 <= k < i && text_in(#[trigger] model[k]) is None,
        decreases items.len() - i,
    {
        assert(model[i as int] == yaml_model(items@[i as int]));
        let ghost prior = out.deep_view();
        match items[i].as_str() {
            Some(s) => {
                out.push(s.clone());
                assert(out.deep_view() =~= prior.push(s@));
            },
            None => {
                other = true;
            },
        }
        i += 1;
    }
    if other {
        warnings.push(DeriveWarning::NonStringAxisEntry { key: key.to_owned() });
        assert(warnings.deep_view() =~= before + axis_warnings(Some(model), key@));
    } else {
        assert(before + axis_warnings(Some(model), key@) =~= before);
    }
    Ok(Some(out))
}

fn warn_about_block(sa: &Yaml, warnings: &mut Vec<DeriveWarning>)
    ensures
        final(warnings).deep_view() == old(warnings).deep_view() + block_warnings(yaml_model(*sa)),
{
    let ghost before = warnings.deep_view();
    let ghost m = untagged(yaml_model(*sa));
    match sa.untag() {
        Yaml::Mapping(pairs) => {
            let ghost ps = m->Mapping_0;
            let mut i: usize = 0;
            assert(before + key_warnings(ps, 0) =~= before);
            while i < pairs.len()
                invariant
                    m == yaml_model(Yaml::Mapping(*pairs)),
                    m == YamlModel::Mapping(ps),
                    ps.len() == pairs.len(),
                    i <= pairs.len(),
                    warnings.deep_view() == before + key_warnings(ps, i as int),
                decreases pairs.len() - i,
            {
                assert(ps[i as int].0 == yaml_model(pairs@[i as int].0));
                let ghost prior = warnings.deep_view();
                if let Some(k) = pairs[i].0.as_str() {
                    if !(same(k, "os") || same(k, "cpu") || same(k, "libc")) {
                        warnings.push(DeriveWarning::UnknownKey { key: k.clone() });
                        assert(warnings.deep_view() =~= prior.push(
                            DeriveWarningModel::UnknownKey { key: k@ },
                        ));
                    }
                }
                i += 1;
                assert(warnings.deep_view() =~= before + key_warnings(ps, i as int));
            }
        },
        _ => {
            warnings.push(DeriveWarning::SupportedArchitecturesNotAMapping);
            assert(warnings.deep_view() =~= before + block_warnings(yaml_model(*sa)));
        },
    }
}

fn read_oses(raws: &Vec<String>, host: Os, warnings: &mut Vec<DeriveWarning>) -> (r: Vec<Os>)
    ensures
        ({
            let got = raws.deep_view().map_values(|raw: Seq<char>| os_of(raw, host));
            &&& r@ == wanted(got, got.len() as int)
            &&& final(warnings).deep_view() == old(warnings).deep_view() + refused(
                got,
                got.len() as int,
            )
        }),
{
    let ghost before = warnings.deep_view();
    let ghost got = raws.deep_view().map_values(|raw: Seq<char>| os_of(raw, host));
    let mut out: Vec<Os> = Vec::new();
    let mut i: usize = 0;
    assert(before + refused(got, 0) =~= before);
    while i < raws.len()
        invariant
            got == raws.deep_view().map_values(|raw: Seq<char>| os_of(raw, host)),
            got.len() == raws.len(),
            i <= raws.len(),
            out@ == wanted(got, i as int),
            warnings.deep_view() == before + refused(got, i as int),
        decreases raws.len() - i,
    {
        let raw = raws[i].as_str();
        assert(got[i as int] == os_of(raw@, host));
        let ghost prior = warnings.deep_view();
        if same(raw, "current") {
            out.push(host);
        } else if same(raw, "linux") {
            out.push(Os::Linux);
        } else if same(raw, "darwin") {
            out.push(Os::Darwin);
        } else if same(raw, "win32") {
            warnings.push(DeriveWarning::Win32Skipped);
            assert(warnings.deep_view() =~= prior.push(got[i as int]->Err_0));
        } else {
            warnings.push(DeriveWarning::UnknownOs { value: raw.to_owned() });
            assert(warnings.deep_view() =~= prior.push(got[i as int]->Err_0));
        }
        i += 1;
        assert(warnings.deep_view() =~= before + refused(got, i as int));
    }
    out
}

fn read_cpus(raws: &Vec<String>, host: Cpu, warnings: &mut Vec<DeriveWarning>) -> (r: Vec<Cpu>)
    ensures
        ({
            let got = raws.deep_view().map_values(|raw: Seq<char>| cpu_of(raw, host));
            &&& r@ == wanted(got, got.len() as int)
            &&& final(warnings).deep_view() == old(warnings).deep_view() + refused(
                got,
                got.len() as int,
            )
        }),
{
    let ghost before = warnings.deep_view();
    let ghost got = raws.deep_view().map_values(|raw: Seq<char>| cpu_of(raw, host));
    let mut out: Vec<Cpu> = Vec::new();
    let mut i: usize = 0;
    assert(before + refused(got, 0) =~= before);
    while i < raws.len()
        invariant
            got == raws.deep_view().map_values(|raw: Seq<char>| cpu_of(raw, host)),
            got.len() == raws.len(),
            i <= raws.len(),
            out@ == wanted(got, i as int),
            warnings.deep_view() == before + refused(got, i as int),
        decreases raws.len() - i,
    {
        let raw = raws[i].as_str();
        assert(got[i as int] == cpu_of(raw@, host));
        let ghost prior = warnings.deep_view();
        if same(raw, "current") {
            out.push(host);
        } else if same(raw, "x64") {
            out.push(Cpu::X64);
        } else if same(raw, "arm64") {
            out.push(Cpu::Arm64);
        } else {
            warnings.push(DeriveWarning::UnknownCpu { value: raw.to_owned() });
            assert(warnings.deep_view() =~= prior.push(got[i as int]->Err_0));
        }
        i += 1;
        assert(warnings.deep_view() =~= before + refused(got, i as int));
    }
    out
}

fn read_libcs(raws: &Vec<String>, warnings: &mut Vec<DeriveWarning>) -> (r: Vec<Libc>)
    ensures
        ({
            let got = raws.deep_view().map_values(|raw: Seq<char>| libc_of(raw));
            &&& r@ == wanted(got, got.len() as int)
            &&& final(warnings).deep_view() == old(warnings).deep_view() + refused(
                got,
                got.len() as int,
            )
        }),
{
    let ghost before = warnings.deep_view();
    let ghost got = raws.deep_view().map_values(|raw: Seq<char>| libc_of(raw));
    let mut out: Vec<Libc> = Vec::new();
    let mut i: usize = 0;
    assert(before + refused(got, 0) =~= before);
    while i < raws.len()
        invariant
            got == raws.deep_view().map_values(|raw: Seq<char>| libc_of(raw)),
            got.len() == raws.len(),
            i <= raws.len(),
            out@ == wanted(got, i as int),
            warnings.deep_view() == before + refused(got, i as int),
        decreases raws.len() - i,
    {
        let raw = raws[i].as_str();
        assert(got[i as int] == libc_of(raw@));
        let ghost prior = warnings.deep_view();
        if same(raw, "current") || same(raw, "glibc") {
            out.push(Libc::Glibc);
        } else if same(raw, "musl") {
            out.push(Libc::Musl);
        } else {
            warnings.push(DeriveWarning::UnknownLibc { value: raw.to_owned() });
            assert(warnings.deep_view() =~= prior.push(got[i as int]->Err_0));
        }
        i += 1;
        assert(warnings.deep_view() =~= before + refused(got, i as int));
    }
    out
}

fn has_os(asked: &Vec<Os>, os: Os) -> (r: bool)
    ensures
        r == asked@.contains(os),
{
    let mut i: usize = 0;
    while i < asked.len()
        invariant
            i <= asked.len(),
            forall|k: int| 0 <= k < i ==> asked@[k] != os,
        decreases asked.len() - i,
    {
        if asked[i] == os {
            return true;
        }
        i += 1;
    }
    false
}

fn has_cpu(asked: &Vec<Cpu>, cpu: Cpu) -> (r: bool)
    ensures
        r == asked@.contains(cpu),
{
    let mut i: usize = 0;
    while i < asked.len()
        invariant
            i <= asked.len(),
            forall|k: int| 0 <= k < i ==> asked@[k] != cpu,
        decreases asked.len() - i,
    {
        if asked[i] == cpu {
            return true;
        }
        i += 1;
    }
    false
}

fn has_libc(asked: &Vec<Libc>, libc: Libc) -> (r: bool)
    ensures
        r == asked@.contains(libc),
{
    let mut i: usize = 0;
    while i < asked.len()
        invariant
            i <= asked.len(),
            forall|k: int| 0 <= k < i ==> asked@[k] != libc,
        decreases asked.len() - i,
    {
        if asked[i] == libc {
            return true;
        }
        i += 1;
    }
    false
}

fn sort_oses(asked: &Vec<Os>) -> (r: Vec<Os>)
    ensures
        r@ == sorted_oses(asked@),
{
    let mut r: Vec<Os> = Vec::new();
    if has_os(asked, Os::Linux) {
        r.push(Os::Linux);
    }
    if has_os(asked, Os::Darwin) {
        r.push(Os::Darwin);
    }
    if has_os(asked, Os::Win32) {
        r.push(Os::Win32);
    }
    proof {
        reveal_with_fuel(in_order, 4);
    }
    r
}

fn sort_cpus(asked: &Vec<Cpu>) -> (r: Vec<Cpu>)
    ensures
        r@ == sorted_cpus(asked@),
{
    let mut r: Vec<Cpu> = Vec::new();
    if has_cpu(asked, Cpu::X64) {
        r.push(Cpu::X64);
    }
    if has_cpu(asked, Cpu::Arm64) {
        r.push(Cpu::Arm64);
    }
    proof {
        reveal_with_fuel(in_order, 3);
    }
    r
}

fn sort_libcs(asked: &Vec<Libc>) -> (r: Vec<Libc>)
    ensures
        r@ == sorted_libcs(asked@),
{
    let mut r: Vec<Libc> = Vec::new();
    if has_libc(asked, Libc::Glibc) {
        r.push(Libc::Glibc);
    }
    if has_libc(asked, Libc::Musl) {
        r.push(Libc::Musl);
    }
    proof {
        reveal_with_fuel(in_order, 3);
    }
    r
}

fn put_platform(platforms: &mut Dict<Platform>, os: Os, cpu: Cpu, libc: Option<Libc>)
    ensures
        as_map(final(platforms).deep_view()) == as_map(old(platforms).deep_view()).insert(
            named_platform(os, cpu, libc).0,
            named_platform(os, cpu, libc).1,
        ),
{
    let p = Platform { os, cpu, libc, constraints: None };
    assert(p.deep_view() == named_platform(os, cpu, libc).1);
    platforms.insert(platform_name(os, cpu, libc), p);
}

/// The cross product of the axes.
fn expand(oses: &Vec<Os>, cpus: &Vec<Cpu>, libcs: &Vec<Libc>) -> (r: Dict<Platform>)
    ensures
        as_map(r.deep_view()) == put_all(
            Map::empty(),
            product_of(oses@, cpus@, libcs@, oses@.len() as int),
        ),
{
    let ghost none = Map::<Seq<char>, PlatformModel>::empty();
    let mut platforms: Dict<Platform> = Dict::new();
    assert(as_map(platforms.deep_view()) =~= none);
    let mut i: usize = 0;
    while i < oses.len()
        invariant
            i <= oses.len(),
            none == Map::<Seq<char>, PlatformModel>::empty(),
            as_map(platforms.deep_view()) == put_all(
                none,
                product_of(oses@, cpus@, libcs@, i as int),
            ),
        decreases oses.len() - i,
    {
        let os = oses[i];
        let ghost above = product_of(oses@, cpus@, libcs@, i as int);
        let mut j: usize = 0;
        assert(above + row_of(os, cpus@, libcs@, 0) =~= above);
        while j < cpus.len()
            invariant
                j <= cpus.len(),
                i < oses.len(),
                os == oses@[i as int],
                none == Map::<Seq<char>, PlatformModel>::empty(),
                as_map(platforms.deep_view()) == put_all(
                    none,
                    above + row_of(os, cpus@, libcs@, j as int),
                ),
            decreases cpus.len() - j,
        {
            let cpu = cpus[j];
            let ghost left = above + row_of(os, cpus@, libcs@, j as int);
            let ghost cell = cell_of(os, cpu, libcs@);
            // A libc is meaningless off linux.
            if os == Os::Linux {
                let mut k: usize = 0;
                assert(left + cell.take(0) =~= left);
                while k < libcs.len()
                    invariant
                        k <= libcs.len(),
                        os is Linux,
                        cell == cell_of(os, cpu, libcs@),
                        as_map(platforms.deep_view()) == put_all(none, left + cell.take(k as int)),
                    decreases libcs.len() - k,
                {
                    let libc = libcs[k];
                    proof {
                        assert(cell[k as int] == named_platform(os, cpu, Some(libc)));
                        put_all_push(none, left + cell.take(k as int), cell[k as int]);
                        assert(left + cell.take(k + 1) =~= (left + cell.take(k as int)).push(cell[k as int]));
                    }
                    put_platform(&mut platforms, os, cpu, Some(libc));
                    k += 1;
                }
                assert(cell.take(k as int) =~= cell);
            } else {
                proof {
                    put_all_push(none, left, cell[0]);
                    assert(left + cell =~= left.push(cell[0]));
                }
                put_platform(&mut platforms, os, cpu, None);
            }
            j += 1;
            assert(left + cell =~= above + row_of(os, cpus@, libcs@, j as int));
        }
        i += 1;
    }
    platforms
}

/// The platforms without any `supportedArchitectures`.
fn default_platforms() -> (r: Dict<Platform>)
    ensures
        as_map(r.deep_view()) == put_all(Map::empty(), default_list()),
{
    let ghost none = Map::<Seq<char>, PlatformModel>::empty();
    let ghost list = default_list();
    let mut platforms: Dict<Platform> = Dict::new();
    put_platform(&mut platforms, Os::Linux, Cpu::X64, Some(Libc::Glibc));
    put_platform(&mut platforms, Os::Linux, Cpu::Arm64, Some(Libc::Glibc));
    put_platform(&mut platforms, Os::Darwin, Cpu::Arm64, None);
    proof {
        assert(as_map(Seq::<(Seq<char>, PlatformModel)>::empty()) =~= none);
        assert(list.drop_last().drop_last().drop_last() =~= Seq::<(Seq<char>, PlatformModel)>::empty());
        reveal_with_fuel(put_all, 4);
    }
    platforms
}

proof fn put_all_not_empty(list: Table<PlatformModel>)
    requires
        list.len() > 0,
    ensures
        exists|k: Seq<char>|
            put_all(Map::<Seq<char>, PlatformModel>::empty(), list).contains_key(k),
{
    let m = put_all(Map::<Seq<char>, PlatformModel>::empty(), list);
    assert(m.contains_key(list.last().0));
}

/// Expands a `supportedArchitectures` block into a platform matrix, or gives the
/// default set where there is none.
///
/// Cross-product os by cpu; `libc` applies only to linux; `win32` is skipped with
/// a warning; `current` resolves to the host. Only an axis that is absent falls
/// back: one that is there and names nothing usable leaves the matrix empty,
/// which is an error.
pub fn platforms_from(sa: Option<&Yaml>, host_os: Os, host_cpu: Cpu) -> (r: Result<
    DerivedPlatforms,
    DeriveError,
>)
    ensures
        derived_agrees(
            expansion(
                match sa {
                    Some(y) => Some(yaml_model(*y)),
                    None => None,
                },
                host_os,
                host_cpu,
            ),
            r,
        ),
{
    let mut warnings: Vec<DeriveWarning> = Vec::new();
    assert(warnings.deep_view() =~= Seq::<DeriveWarningModel>::empty());
    let sa = match sa {
        None => {
            return Ok(DerivedPlatforms { platforms: default_platforms(), warnings });
        },
        Some(sa) => sa,
    };
    let ghost m = yaml_model(*sa);
    warn_about_block(sa, &mut warnings);
    let os_raws = match axis(sa, "os", &mut warnings) {
        Ok(x) => x,
        Err(e) => {
            return Err(e);
        },
    };
    let ghost os = axis_items(m, "os"@)->Ok_0;
    let ghost o = os_entries(os, host_os);
    let os_asked = match &os_raws {
        Some(raws) => read_oses(raws, host_os, &mut warnings),
        None => {
            let mut v: Vec<Os> = Vec::new();
            v.push(host_os);
            assert(v@ =~= seq![host_os]);
            assert(refused(o, o.len() as int) =~= Seq::<DeriveWarningModel>::empty());
            assert(warnings.deep_view() + refused(o, o.len() as int) =~= warnings.deep_view());
            v
        },
    };
    let cpu_raws = match axis(sa, "cpu", &mut warnings) {
        Ok(x) => x,
        Err(e) => {
            return Err(e);
        },
    };
    let ghost cpu = axis_items(m, "cpu"@)->Ok_0;
    let ghost c = cpu_entries(cpu, host_cpu);
    let cpu_asked = match &cpu_raws {
        Some(raws) => read_cpus(raws, host_cpu, &mut warnings),
        None => {
            let mut v: Vec<Cpu> = Vec::new();
            v.push(host_cpu);
            assert(v@ =~= seq![host_cpu]);
            assert(refused(c, c.len() as int) =~= Seq::<DeriveWarningModel>::empty());
            assert(warnings.deep_view() + refused(c, c.len() as int) =~= warnings.deep_view());
            v
        },
    };
    let libc_raws = match axis(sa, "libc", &mut warnings) {
        Ok(x) => x,
        Err(e) => {
            return Err(e);
        },
    };
    let ghost libc = axis_items(m, "libc"@)->Ok_0;
    let ghost l = libc_entries(libc);
    let libc_asked = match &libc_raws {
        Some(raws) => read_libcs(raws, &mut warnings),
        None => {
            let mut v: Vec<Libc> = Vec::new();
            v.push(Libc::Glibc);
            assert(v@ =~= seq![Libc::Glibc]);
            assert(refused(l, l.len() as int) =~= Seq::<DeriveWarningModel>::empty());
            assert(warnings.deep_view() + refused(l, l.len() as int) =~= warnings.deep_view());
            v
        },
    };
    assert(warnings.deep_view() =~= all_warnings(m, os, cpu, libc, host_os, host_cpu));
    let oses = sort_oses(&os_asked);
    let cpus = sort_cpus(&cpu_asked);
    let libcs = sort_libcs(&libc_asked);
    let platforms = expand(&oses, &cpus, &libcs);
    let ghost list = product_of(oses@, cpus@, libcs@, oses@.len() as int);
    proof {
        if list.len() > 0 {
            put_all_not_empty(list);
        }
        if platforms.deep_view().len() == 0 {
            assert(as_map(platforms.deep_view()) =~= Map::<Seq<char>, PlatformModel>::empty());
        } else {
            assert(as_map(platforms.deep_view()).contains_key(platforms.deep_view()[0].0));
        }
    }
    if platforms.is_empty() {
        let axis = if oses.len() == 0 {
            "os"
        } else if cpus.len() == 0 {
            "cpu"
        } else {
            "libc"
        };
        return Err(DeriveError::NoUsablePlatforms { axis, warnings });
    }
    Ok(DerivedPlatforms { platforms, warnings })
}

/// Expands a workspace file, given what it holds as a document and what the reader makes
/// of it.
pub fn platforms_in(
    doc: Result<Yaml, String>,
    reading: &Result<Option<Yaml>, String>,
    host_os: Os,
    host_cpu: Cpu,
) -> (r: Result<DerivedPlatforms, DeriveError>)
    ensures
        derived_agrees(
            parsed_expansion(
                match doc {
                    Ok(y) => Ok(yaml_model(y)),
                    Err(e) => Err(e@),
                },
                reading_model(*reading),
                host_os,
                host_cpu,
            ),
            r,
        ),
{
    let block = match reading {
        Ok(block) => block,
        Err(source) => {
            return Err(
                DeriveError::WorkspaceParse {
                    path: "pnpm-workspace.yaml".to_owned(),
                    source: source.clone(),
                },
            );
        },
    };
    match doc {
        Ok(doc) => match doc.get("supportedArchitectures") {
            Some(sa) => match sa {
                Yaml::Null => platforms_from(None, host_os, host_cpu),
                _ => platforms_from(Some(sa), host_os, host_cpu),
            },
            None => platforms_from(None, host_os, host_cpu),
        },
        Err(_) => match block {
            Some(sa) => platforms_from(Some(sa), host_os, host_cpu),
            None => platforms_from(None, host_os, host_cpu),
        },
    }
}

/// Expands the `supportedArchitectures` of a `pnpm-workspace.yaml` into a platform
/// matrix for this host.
pub fn derive_platforms(workspace: Option<&Workspace>, host_os: Os, host_cpu: Cpu) -> (r: Result<
    DerivedPlatforms,
    DeriveError,
>)
    ensures
        derived_agrees(
            workspace_expansion(
                match workspace {
                    Some(w) => Some(*w),
                    None => None,
                },
                host_os,
                host_cpu,
            ),
            r,
        ),
{
    match workspace {
        None => platforms_from(None, host_os, host_cpu),
        Some(w) => platforms_in(parse_yaml(w.text.as_str()), &w.reading, host_os, host_cpu),
    }
}

// --- Laws -------------------------------------------------------------------------------

/// Each platform stands under its own name, has a C library exactly on linux, and
/// is of one of these systems.
spec fn cells_are_sound(list: Table<PlatformModel>, oses: Seq<Os>) -> bool {
    forall|i: int|
        0 <= i < list.len() ==> {
            let (name, p) = #[trigger] list[i];
            &&& name == name_text(p.os, p.cpu, p.libc)
            &&& (p.os is Linux <==> p.libc is Some)
            &&& p.constraints is None
            &&& oses.contains(p.os)
        }
}

proof fn row_is_sound(os: Os, cpus: Seq<Cpu>, libcs: Seq<Libc>, n: int, oses: Seq<Os>)
    requires
        0 <= n <= cpus.len(),
        oses.contains(os),
    ensures
        cells_are_sound(row_of(os, cpus, libcs, n), oses),
    decreases n,
{
    if n > 0 {
        row_is_sound(os, cpus, libcs, n - 1, oses);
        let before = row_of(os, cpus, libcs, n - 1);
        let cell = cell_of(os, cpus[n - 1], libcs);
        let now = row_of(os, cpus, libcs, n);
        assert forall|i: int| 0 <= i < now.len() implies {
            let (name, p) = #[trigger] now[i];
            &&& name == name_text(p.os, p.cpu, p.libc)
            &&& (p.os is Linux <==> p.libc is Some)
            &&& p.constraints is None
            &&& oses.contains(p.os)
        } by {
            if i < before.len() {
                assert(now[i] == before[i]);
            } else {
                assert(now[i] == cell[i - before.len()]);
            }
        }
    }
}

proof fn product_is_sound(oses: Seq<Os>, cpus: Seq<Cpu>, libcs: Seq<Libc>, n: int)
    requires
        0 <= n <= oses.len(),
    ensures
        cells_are_sound(product_of(oses, cpus, libcs, n), oses),
    decreases n,
{
    if n > 0 {
        product_is_sound(oses, cpus, libcs, n - 1);
        assert(oses.contains(oses[n - 1]));
        row_is_sound(oses[n - 1], cpus, libcs, cpus.len() as int, oses);
        let before = product_of(oses, cpus, libcs, n - 1);
        let row = row_of(oses[n - 1], cpus, libcs, cpus.len() as int);
        let now = product_of(oses, cpus, libcs, n);
        assert forall|i: int| 0 <= i < now.len() implies {
            let (name, p) = #[trigger] now[i];
            &&& name == name_text(p.os, p.cpu, p.libc)
            &&& (p.os is Linux <==> p.libc is Some)
            &&& p.constraints is None
            &&& oses.contains(p.os)
        } by {
            if i < before.len() {
                assert(now[i] == before[i]);
            } else {
                assert(now[i] == row[i - before.len()]);
            }
        }
    }
}

proof fn wanted_from<T>(got: Seq<Result<T, DeriveWarningModel>>, n: int, v: T)
    requires
        0 <= n <= got.len(),
        wanted(got, n).contains(v),
    ensures
        exists|i: int| 0 <= i < n && #[trigger] got[i] == Ok::<T, DeriveWarningModel>(v),
    decreases n,
{
    if n > 0 {
        let before = wanted(got, n - 1);
        let now = wanted(got, n);
        let k = now.index_of(v);
        if k < before.len() {
            assert(before[k] == v);
            wanted_from(got, n - 1, v);
        } else {
            assert(got[n - 1] == Ok::<T, DeriveWarningModel>(v));
        }
    }
}

proof fn in_order_from(all: Seq<Os>, asked: Seq<Os>, n: int, v: Os)
    requires
        in_order(all, asked, n).contains(v),
    ensures
        asked.contains(v),
    decreases n,
{
    if n > 0 {
        let before = in_order(all, asked, n - 1);
        let now = in_order(all, asked, n);
        let k = now.index_of(v);
        if k < before.len() {
            assert(before[k] == v);
            in_order_from(all, asked, n - 1, v);
        }
    }
}

/// Whatever is asked for, every platform that comes of it stands under its own
/// name, has a C library exactly where it is linux, is never Windows unless that is
/// the host, and selects on generated labels.
pub proof fn derived_platforms_are_sound(sa: Option<YamlModel>, host_os: Os, host_cpu: Cpu, i: int)
    requires
        expansion(sa, host_os, host_cpu) is Ok,
        0 <= i < expansion(sa, host_os, host_cpu)->Ok_0.0.len(),
    ensures
        ({
            let (name, p) = expansion(sa, host_os, host_cpu)->Ok_0.0[i];
            &&& name == name_text(p.os, p.cpu, p.libc)
            &&& (p.os is Linux <==> p.libc is Some)
            &&& (p.os is Win32 ==> host_os is Win32)
            &&& p.constraints is None
        }),
{
    match sa {
        None => {},
        Some(y) => {
            let (os, cpu, libc) = axes_of(y)->Ok_0;
            let got = os_entries(os, host_os);
            let asked = chosen(os, got, host_os);
            let oses = sorted_oses(asked);
            let cpus = sorted_cpus(chosen(cpu, cpu_entries(cpu, host_cpu), host_cpu));
            let libcs = sorted_libcs(chosen(libc, libc_entries(libc), Libc::Glibc));
            product_is_sound(oses, cpus, libcs, oses.len() as int);
            let (name, p) = expansion(sa, host_os, host_cpu)->Ok_0.0[i];
            in_order_from(seq![Os::Linux, Os::Darwin, Os::Win32], asked, 3, p.os);
            if p.os is Win32 && os is Some {
                wanted_from(got, got.len() as int, p.os);
                let k = choose|k: int|
                    0 <= k < got.len() && #[trigger] got[k] == Ok::<Os, DeriveWarningModel>(p.os);
                assert(got[k] == os_of(axis_texts(os)[k], host_os));
            }
        },
    }
}

proof fn some_platform_is_the_same(platforms: Table<PlatformModel>, p: PlatformModel, n: int)
    requires
        0 <= n <= platforms.len(),
        first_same(platforms, p, n) is Some,
    ensures
        exists|j: int| 0 <= j < n && same_machine((#[trigger] platforms[j]).1, p),
    decreases n,
{
    if n > 0 {
        if first_same(platforms, p, n - 1) is Some {
            some_platform_is_the_same(platforms, p, n - 1);
        } else {
            assert(same_machine(platforms[n - 1].1, p));
        }
    }
}

proof fn sound_platforms_have_no_errors(table: Table<PlatformModel>, n: int)
    requires
        keys_increase(table),
        0 <= n <= table.len(),
        forall|i: int|
            0 <= i < table.len() ==> {
                let (name, p) = #[trigger] table[i];
                &&& name == name_text(p.os, p.cpu, p.libc)
                &&& (p.os is Linux <==> p.libc is Some)
                &&& !(p.os is Win32)
                &&& p.constraints is None
            },
    ensures
        platforms_errors(table, n) == Seq::<ConfigErrorModel>::empty(),
    decreases n,
{
    if n > 0 {
        sound_platforms_have_no_errors(table, n - 1);
        let (name, p) = table[n - 1];
        assert(platform_errors(name, p) =~= Seq::empty());
        if first_same(table, p, n - 1) is Some {
            some_platform_is_the_same(table, p, n - 1);
            let j = choose|j: int| 0 <= j < n - 1 && same_machine((#[trigger] table[j]).1, p);
            assert(table[j].0 == name_text(p.os, p.cpu, p.libc));
            assert(text_lt(table[j].0, table[n - 1].0));
            text_lt_irreflexive(name);
        }
        assert(platforms_errors(table, n) =~= Seq::empty());
    }
}

/// What is derived passes the check: there is at least one platform, and nothing is
/// wrong with any of them.
pub proof fn derived_platforms_pass_the_check(
    sa: Option<YamlModel>,
    host_os: Os,
    host_cpu: Cpu,
    table: Table<PlatformModel>,
)
    requires
        expansion(sa, host_os, host_cpu) is Ok,
        !(host_os is Win32),
        keys_increase(table),
        as_map(table) == put_all(Map::empty(), expansion(sa, host_os, host_cpu)->Ok_0.0),
    ensures
        table.len() > 0,
        platforms_errors(table, table.len() as int) == Seq::<ConfigErrorModel>::empty(),
{
    let list = expansion(sa, host_os, host_cpu)->Ok_0.0;
    assert(list.len() > 0);
    assert(has_key(list, list[0].0));
    put_all_members(Map::<Seq<char>, PlatformModel>::empty(), list, list[0].0);
    assert(as_map(table).contains_key(list[0].0));
    assert forall|i: int| 0 <= i < table.len() implies {
        let (name, p) = #[trigger] table[i];
        &&& name == name_text(p.os, p.cpu, p.libc)
        &&& (p.os is Linux <==> p.libc is Some)
        &&& !(p.os is Win32)
        &&& p.constraints is None
    } by {
        let (name, p) = table[i];
        key_index_is(table, i);
        assert(as_map(table)[name] == p);
        put_all_members(Map::<Seq<char>, PlatformModel>::empty(), list, name);
        let j = list.index_of((name, p));
        assert(list[j] == (name, p));
        derived_platforms_are_sound(sa, host_os, host_cpu, j);
    }
    sound_platforms_have_no_errors(table, table.len() as int);
}

proof fn texts_are_in(items: Seq<YamlModel>, n: int, t: Seq<char>)
    requires
        0 <= n <= items.len(),
    ensures
        texts_in(items, n).contains(t) <==> exists|i: int|
            0 <= i < n && text_in(#[trigger] items[i]) == Some(t),
    decreases n,
{
    broadcast use vstd::seq_lib::lemma_seq_contains_after_push;

    if n > 0 {
        texts_are_in(items, n - 1, t);
    }
}

proof fn wanted_is<T>(got: Seq<Result<T, DeriveWarningModel>>, n: int, v: T)
    requires
        0 <= n <= got.len(),
    ensures
        wanted(got, n).contains(v) <==> exists|i: int|
            0 <= i < n && #[trigger] got[i] == Ok::<T, DeriveWarningModel>(v),
    decreases n,
{
    broadcast use vstd::seq_lib::lemma_seq_contains_after_push;

    if n > 0 {
        wanted_is(got, n - 1, v);
    }
}

proof fn refused_is<T>(got: Seq<Result<T, DeriveWarningModel>>, n: int, w: DeriveWarningModel)
    requires
        0 <= n <= got.len(),
    ensures
        refused(got, n).contains(w) <==> exists|i: int|
            0 <= i < n && #[trigger] got[i] == Err::<T, DeriveWarningModel>(w),
    decreases n,
{
    broadcast use vstd::seq_lib::lemma_seq_contains_after_push;

    if n > 0 {
        refused_is(got, n - 1, w);
    }
}

proof fn in_order_is<T>(all: Seq<T>, asked: Seq<T>, n: int, v: T)
    requires
        0 <= n <= all.len(),
    ensures
        in_order(all, asked, n).contains(v) <==> asked.contains(v) && all.take(n).contains(v),
    decreases n,
{
    broadcast use vstd::seq_lib::lemma_seq_contains_after_push;

    if n > 0 {
        in_order_is(all, asked, n - 1, v);
        assert(all.take(n) =~= all.take(n - 1).push(all[n - 1]));
    }
}

/// A platform stands in the list under its name.
spec fn is_listed(list: Table<PlatformModel>, os: Os, cpu: Cpu, libc: Option<Libc>) -> bool {
    list.contains(named_platform(os, cpu, libc))
}

proof fn cell_is(at: Os, with: Cpu, libcs: Seq<Libc>, os: Os, cpu: Cpu, libc: Option<Libc>)
    ensures
        is_listed(cell_of(at, with, libcs), os, cpu, libc) <==> os == at && cpu == with && if os is Linux {
            libc is Some && libcs.contains(libc->Some_0)
        } else {
            libc is None
        },
{
    let cell = cell_of(at, with, libcs);
    let wanted_one = named_platform(os, cpu, libc);
    if at is Linux {
        if cell.contains(wanted_one) {
            let i = cell.index_of(wanted_one);
            assert(cell[i] == named_platform(at, with, Some(libcs[i])));
        }
        if os == at && cpu == with && libc is Some && libcs.contains(libc->Some_0) {
            let i = libcs.index_of(libc->Some_0);
            assert(cell[i] == wanted_one);
        }
    } else {
        assert(cell[0] == named_platform(at, with, None));
    }
}

proof fn row_is(
    at: Os,
    cpus: Seq<Cpu>,
    libcs: Seq<Libc>,
    n: int,
    os: Os,
    cpu: Cpu,
    libc: Option<Libc>,
)
    requires
        0 <= n <= cpus.len(),
    ensures
        is_listed(row_of(at, cpus, libcs, n), os, cpu, libc) <==> os == at && cpus.take(n).contains(
            cpu,
        ) && if os is Linux {
            libc is Some && libcs.contains(libc->Some_0)
        } else {
            libc is None
        },
    decreases n,
{
    broadcast use vstd::seq_lib::lemma_seq_concat_contains_all_elements;
    broadcast use vstd::seq_lib::lemma_seq_contains_after_push;

    if n > 0 {
        row_is(at, cpus, libcs, n - 1, os, cpu, libc);
        cell_is(at, cpus[n - 1], libcs, os, cpu, libc);
        assert(cpus.take(n) =~= cpus.take(n - 1).push(cpus[n - 1]));
    }
}

proof fn product_is(
    oses: Seq<Os>,
    cpus: Seq<Cpu>,
    libcs: Seq<Libc>,
    n: int,
    os: Os,
    cpu: Cpu,
    libc: Option<Libc>,
)
    requires
        0 <= n <= oses.len(),
    ensures
        is_listed(product_of(oses, cpus, libcs, n), os, cpu, libc) <==> oses.take(n).contains(os)
            && cpus.contains(cpu) && if os is Linux {
            libc is Some && libcs.contains(libc->Some_0)
        } else {
            libc is None
        },
    decreases n,
{
    broadcast use vstd::seq_lib::lemma_seq_concat_contains_all_elements;
    broadcast use vstd::seq_lib::lemma_seq_contains_after_push;

    if n > 0 {
        product_is(oses, cpus, libcs, n - 1, os, cpu, libc);
        row_is(oses[n - 1], cpus, libcs, cpus.len() as int, os, cpu, libc);
        assert(oses.take(n) =~= oses.take(n - 1).push(oses[n - 1]));
        assert(cpus.take(cpus.len() as int) =~= cpus);
    }
}

/// A block names a word under a key, in a list.
pub open spec fn block_names(sa: YamlModel, key: Seq<char>, word: Seq<char>) -> bool {
    &&& field_of(sa, key) is Some
    &&& untagged(field_of(sa, key)->Some_0) is List
    &&& holds_text(untagged(field_of(sa, key)->Some_0)->List_0, word)
}

/// One of the items is this text.
pub open spec fn holds_text(items: Seq<YamlModel>, word: Seq<char>) -> bool {
    exists|i: int| 0 <= i < items.len() && text_in(#[trigger] items[i]) == Some(word)
}

/// A block asks for a system: by its name, as that of the host, or by naming none.
pub open spec fn asks_for_os(sa: YamlModel, os: Os, host: Os) -> bool {
    ||| os == host && (field_of(sa, "os"@) is None || block_names(sa, "os"@, "current"@))
    ||| os is Linux && block_names(sa, "os"@, "linux"@)
    ||| os is Darwin && block_names(sa, "os"@, "darwin"@)
}

/// A block asks for an architecture, in the same ways.
pub open spec fn asks_for_cpu(sa: YamlModel, cpu: Cpu, host: Cpu) -> bool {
    ||| cpu == host && (field_of(sa, "cpu"@) is None || block_names(sa, "cpu"@, "current"@))
    ||| cpu is X64 && block_names(sa, "cpu"@, "x64"@)
    ||| cpu is Arm64 && block_names(sa, "cpu"@, "arm64"@)
}

/// A block asks for a C library. The host's is taken to be glibc.
pub open spec fn asks_for_libc(sa: YamlModel, libc: Libc) -> bool {
    ||| libc is Glibc && (field_of(sa, "libc"@) is None || block_names(sa, "libc"@, "current"@)
        || block_names(sa, "libc"@, "glibc"@))
    ||| libc is Musl && block_names(sa, "libc"@, "musl"@)
}

proof fn words_differ()
    ensures
        "current"@ != "linux"@,
        "current"@ != "darwin"@,
        "current"@ != "x64"@,
        "current"@ != "arm64"@,
        "current"@ != "glibc"@,
        "current"@ != "musl"@,
        "linux"@ != "darwin"@,
        "x64"@ != "arm64"@,
        "glibc"@ != "musl"@,
{
    reveal_strlit("current");
    reveal_strlit("linux");
    reveal_strlit("darwin");
    reveal_strlit("x64");
    reveal_strlit("arm64");
    reveal_strlit("glibc");
    reveal_strlit("musl");
    assert("current"@[0] == 'c');
    assert("linux"@[0] == 'l');
    assert("darwin"@[0] == 'd');
    assert("x64"@[0] == 'x');
    assert("arm64"@[0] == 'a');
    assert("glibc"@[0] == 'g');
    assert("musl"@[0] == 'm');
}

proof fn axis_texts_are(sa: YamlModel, key: Seq<char>, items: Option<Seq<YamlModel>>)
    requires
        axis_items(sa, key) == Ok::<Option<Seq<YamlModel>>, DeriveErrorModel>(items),
    ensures
        items is None <==> field_of(sa, key) is None,
        forall|t: Seq<char>| #[trigger] axis_texts(items).contains(t) <==> block_names(sa, key, t),
{
    assert forall|t: Seq<char>| #[trigger] axis_texts(items).contains(t) <==> block_names(sa, key, t) by {
        if let Some(list) = items {
            texts_are_in(list, list.len() as int, t);
        }
    }
}

proof fn asked_oses_are(sa: YamlModel, items: Option<Seq<YamlModel>>, host: Os, os: Os)
    requires
        axis_items(sa, "os"@) == Ok::<Option<Seq<YamlModel>>, DeriveErrorModel>(items),
    ensures
        sorted_oses(chosen(items, os_entries(items, host), host)).contains(os) <==> asks_for_os(
            sa,
            os,
            host,
        ),
{
    let all = seq![Os::Linux, Os::Darwin, Os::Win32];
    let got = os_entries(items, host);
    let texts = axis_texts(items);
    let asked = chosen(items, got, host);
    words_differ();
    axis_texts_are(sa, "os"@, items);
    in_order_is(all, asked, 3, os);
    wanted_is(got, got.len() as int, os);
    assert(all.take(3) =~= all);
    assert(all[0] == Os::Linux && all[1] == Os::Darwin && all[2] == Os::Win32);
    assert(all.contains(os));
    assert forall|i: int| 0 <= i < got.len() implies #[trigger] got[i] == os_of(texts[i], host) by {}
    if items is None {
        assert(asked[0] == host);
    } else {
        if wanted(got, got.len() as int).contains(os) {
            let i = choose|i: int|
                0 <= i < got.len() && #[trigger] got[i] == Ok::<Os, DeriveWarningModel>(os);
            assert(texts.contains(texts[i]));
        }
        assert forall|t: Seq<char>| #[trigger] texts.contains(t) && os_of(t, host) == Ok::<
            Os,
            DeriveWarningModel,
        >(os) implies wanted(got, got.len() as int).contains(os) by {
            let i = texts.index_of(t);
            assert(got[i] == Ok::<Os, DeriveWarningModel>(os));
        }
        assert(texts.contains("current"@) <==> block_names(sa, "os"@, "current"@));
        assert(texts.contains("linux"@) <==> block_names(sa, "os"@, "linux"@));
        assert(texts.contains("darwin"@) <==> block_names(sa, "os"@, "darwin"@));
    }
}

proof fn asked_cpus_are(sa: YamlModel, items: Option<Seq<YamlModel>>, host: Cpu, cpu: Cpu)
    requires
        axis_items(sa, "cpu"@) == Ok::<Option<Seq<YamlModel>>, DeriveErrorModel>(items),
    ensures
        sorted_cpus(chosen(items, cpu_entries(items, host), host)).contains(cpu) <==> asks_for_cpu(
            sa,
            cpu,
            host,
        ),
{
    let all = seq![Cpu::X64, Cpu::Arm64];
    let got = cpu_entries(items, host);
    let texts = axis_texts(items);
    let asked = chosen(items, got, host);
    words_differ();
    axis_texts_are(sa, "cpu"@, items);
    in_order_is(all, asked, 2, cpu);
    wanted_is(got, got.len() as int, cpu);
    assert(all.take(2) =~= all);
    assert(all[0] == Cpu::X64 && all[1] == Cpu::Arm64);
    assert(all.contains(cpu));
    assert forall|i: int| 0 <= i < got.len() implies #[trigger] got[i] == cpu_of(texts[i], host) by {}
    if items is None {
        assert(asked[0] == host);
    } else {
        if wanted(got, got.len() as int).contains(cpu) {
            let i = choose|i: int|
                0 <= i < got.len() && #[trigger] got[i] == Ok::<Cpu, DeriveWarningModel>(cpu);
            assert(texts.contains(texts[i]));
        }
        assert forall|t: Seq<char>| #[trigger] texts.contains(t) && cpu_of(t, host) == Ok::<
            Cpu,
            DeriveWarningModel,
        >(cpu) implies wanted(got, got.len() as int).contains(cpu) by {
            let i = texts.index_of(t);
            assert(got[i] == Ok::<Cpu, DeriveWarningModel>(cpu));
        }
        assert(texts.contains("current"@) <==> block_names(sa, "cpu"@, "current"@));
        assert(texts.contains("x64"@) <==> block_names(sa, "cpu"@, "x64"@));
        assert(texts.contains("arm64"@) <==> block_names(sa, "cpu"@, "arm64"@));
    }
}

proof fn asked_libcs_are(sa: YamlModel, items: Option<Seq<YamlModel>>, libc: Libc)
    requires
        axis_items(sa, "libc"@) == Ok::<Option<Seq<YamlModel>>, DeriveErrorModel>(items),
    ensures
        sorted_libcs(chosen(items, libc_entries(items), Libc::Glibc)).contains(libc)
            <==> asks_for_libc(sa, libc),
{
    let all = seq![Libc::Glibc, Libc::Musl];
    let got = libc_entries(items);
    let texts = axis_texts(items);
    let asked = chosen(items, got, Libc::Glibc);
    words_differ();
    axis_texts_are(sa, "libc"@, items);
    in_order_is(all, asked, 2, libc);
    wanted_is(got, got.len() as int, libc);
    assert(all.take(2) =~= all);
    assert(all[0] == Libc::Glibc && all[1] == Libc::Musl);
    assert(all.contains(libc));
    assert forall|i: int| 0 <= i < got.len() implies #[trigger] got[i] == libc_of(texts[i]) by {}
    if items is None {
        assert(asked[0] == Libc::Glibc);
    } else {
        if wanted(got, got.len() as int).contains(libc) {
            let i = choose|i: int|
                0 <= i < got.len() && #[trigger] got[i] == Ok::<Libc, DeriveWarningModel>(libc);
            assert(texts.contains(texts[i]));
        }
        assert forall|t: Seq<char>| #[trigger] texts.contains(t) && libc_of(t) == Ok::<
            Libc,
            DeriveWarningModel,
        >(libc) implies wanted(got, got.len() as int).contains(libc) by {
            let i = texts.index_of(t);
            assert(got[i] == Ok::<Libc, DeriveWarningModel>(libc));
        }
        assert(texts.contains("current"@) <==> block_names(sa, "libc"@, "current"@));
        assert(texts.contains("glibc"@) <==> block_names(sa, "libc"@, "glibc"@));
        assert(texts.contains("musl"@) <==> block_names(sa, "libc"@, "musl"@));
    }
}

/// The platforms of a block are all the combinations of what it asks for, and no others:
/// on linux one for each C library, elsewhere one without. Where nothing is asked for
/// that can be had, there is none, and that is an error.
pub proof fn the_matrix_is_what_is_asked_for(
    sa: YamlModel,
    host_os: Os,
    host_cpu: Cpu,
    os: Os,
    cpu: Cpu,
    libc: Option<Libc>,
)
    ensures
        ({
            let asked = asks_for_os(sa, os, host_os) && asks_for_cpu(sa, cpu, host_cpu) && if os is Linux {
                libc is Some && asks_for_libc(sa, libc->Some_0)
            } else {
                libc is None
            };
            match expansion(Some(sa), host_os, host_cpu) {
                Ok((list, _)) => asked <==> exists|i: int|
                    {
                        &&& 0 <= i < list.len()
                        &&& (#[trigger] list[i]).1.os == os
                        &&& list[i].1.cpu == cpu
                        &&& list[i].1.libc == libc
                    },
                Err(DeriveErrorModel::NoUsablePlatforms { .. }) => !asked,
                Err(_) => true,
            }
        }),
{
    if let Ok((o, c, l)) = axes_of(sa) {
        let oses = sorted_oses(chosen(o, os_entries(o, host_os), host_os));
        let cpus = sorted_cpus(chosen(c, cpu_entries(c, host_cpu), host_cpu));
        let libcs = sorted_libcs(chosen(l, libc_entries(l), Libc::Glibc));
        let list = product_of(oses, cpus, libcs, oses.len() as int);
        asked_oses_are(sa, o, host_os, os);
        asked_cpus_are(sa, c, host_cpu, cpu);
        asked_libcs_are(sa, l, Libc::Glibc);
        asked_libcs_are(sa, l, Libc::Musl);
        product_is(oses, cpus, libcs, oses.len() as int, os, cpu, libc);
        assert(oses.take(oses.len() as int) =~= oses);
        let one = named_platform(os, cpu, libc);
        if list.contains(one) {
            let i = list.index_of(one);
            assert(list[i].1.os == os);
        }
        product_is_sound(oses, cpus, libcs, oses.len() as int);
        assert forall|i: int| 0 <= i < list.len() && (#[trigger] list[i]).1.os == os
            && list[i].1.cpu == cpu && list[i].1.libc == libc implies list.contains(one) by {
            assert(list[i].1 == one.1);
            assert(list[i] == one);
        }
    }
}

/// Where a block gives no platforms, the error names an axis that is to blame: one that is
/// no list, or one of which nothing that is asked for can be had.
pub proof fn the_axis_to_blame_is_named(sa: YamlModel, host_os: Os, host_cpu: Cpu)
    ensures
        match expansion(Some(sa), host_os, host_cpu) {
            Ok(_) => true,
            Err(DeriveErrorModel::AxisNotASequence { key, .. }) => {
                &&& key == "os"@ || key == "cpu"@ || key == "libc"@
                &&& field_of(sa, key) is Some
                &&& untagged(field_of(sa, key)->Some_0) !is List
            },
            Err(DeriveErrorModel::NoUsablePlatforms { axis, .. }) => {
                ||| axis == "os"@ && forall|os: Os| !asks_for_os(sa, os, host_os)
                ||| axis == "cpu"@ && forall|cpu: Cpu| !asks_for_cpu(sa, cpu, host_cpu)
                ||| axis == "libc"@ && forall|libc: Libc| !asks_for_libc(sa, libc)
            },
            Err(_) => false,
        },
{
    if let Ok((o, c, l)) = axes_of(sa) {
        let oses = sorted_oses(chosen(o, os_entries(o, host_os), host_os));
        let cpus = sorted_cpus(chosen(c, cpu_entries(c, host_cpu), host_cpu));
        let libcs = sorted_libcs(chosen(l, libc_entries(l), Libc::Glibc));
        let list = product_of(oses, cpus, libcs, oses.len() as int);
        if list.len() == 0 {
            if oses.len() == 0 {
                assert forall|os: Os| !asks_for_os(sa, os, host_os) by {
                    asked_oses_are(sa, o, host_os, os);
                }
            } else if cpus.len() == 0 {
                assert forall|cpu: Cpu| !asks_for_cpu(sa, cpu, host_cpu) by {
                    asked_cpus_are(sa, c, host_cpu, cpu);
                }
            } else {
                assert forall|libc: Libc| !asks_for_libc(sa, libc) by {
                    asked_libcs_are(sa, l, libc);
                    if libcs.contains(libc) {
                        let with = if oses[0] is Linux {
                            Some(libc)
                        } else {
                            None
                        };
                        product_is(oses, cpus, libcs, oses.len() as int, oses[0], cpus[0], with);
                        assert(oses.take(oses.len() as int) =~= oses);
                        assert(oses.contains(oses[0]) && cpus.contains(cpus[0]));
                        assert(list.contains(named_platform(oses[0], cpus[0], with)));
                    }
                }
            }
        }
    }
}

/// Every word of a block that asks for nothing known is warned about, each under its
/// axis, and so is every key that is no axis.
pub proof fn unknown_words_are_warned_about(
    sa: YamlModel,
    host_os: Os,
    host_cpu: Cpu,
    word: Seq<char>,
)
    requires
        expansion(Some(sa), host_os, host_cpu) is Ok,
    ensures
        ({
            let warnings = expansion(Some(sa), host_os, host_cpu)->Ok_0.1;
            &&& block_names(sa, "os"@, word) && word != "current"@ && word != "linux"@ && word
                != "darwin"@ ==> warnings.contains(
                if word == "win32"@ {
                    DeriveWarningModel::Win32Skipped
                } else {
                    DeriveWarningModel::UnknownOs { value: word }
                },
            )
            &&& block_names(sa, "cpu"@, word) && word != "current"@ && word != "x64"@ && word
                != "arm64"@ ==> warnings.contains(DeriveWarningModel::UnknownCpu { value: word })
            &&& block_names(sa, "libc"@, word) && word != "current"@ && word != "glibc"@ && word
                != "musl"@ ==> warnings.contains(DeriveWarningModel::UnknownLibc { value: word })
            &&& untagged(sa) is Mapping && (exists|i: int|
                0 <= i < untagged(sa)->Mapping_0.len() && text_in(
                    (#[trigger] untagged(sa)->Mapping_0[i]).0,
                ) == Some(word)) && word != "os"@ && word != "cpu"@ && word != "libc"@
                ==> warnings.contains(DeriveWarningModel::UnknownKey { key: word })
        }),
{
    broadcast use vstd::seq_lib::lemma_seq_concat_contains_all_elements;

    let (o, c, l) = axes_of(sa)->Ok_0;
    let og = os_entries(o, host_os);
    let cg = cpu_entries(c, host_cpu);
    let lg = libc_entries(l);
    axis_texts_are(sa, "os"@, o);
    axis_texts_are(sa, "cpu"@, c);
    axis_texts_are(sa, "libc"@, l);
    if axis_texts(o).contains(word) {
        let i = axis_texts(o).index_of(word);
        assert(og[i] == os_of(word, host_os));
        if os_of(word, host_os) is Err {
            refused_is(og, og.len() as int, os_of(word, host_os)->Err_0);
        }
    }
    if axis_texts(c).contains(word) {
        let i = axis_texts(c).index_of(word);
        assert(cg[i] == cpu_of(word, host_cpu));
        if cpu_of(word, host_cpu) is Err {
            refused_is(cg, cg.len() as int, cpu_of(word, host_cpu)->Err_0);
        }
    }
    if axis_texts(l).contains(word) {
        let i = axis_texts(l).index_of(word);
        assert(lg[i] == libc_of(word));
        if libc_of(word) is Err {
            refused_is(lg, lg.len() as int, libc_of(word)->Err_0);
        }
    }
    if word != "os"@ && word != "cpu"@ && word != "libc"@ {
        if let YamlModel::Mapping(pairs) = untagged(sa) {
            unknown_keys_are_warned_about(pairs, pairs.len() as int, word);
        }
    }
}

proof fn unknown_keys_are_warned_about(pairs: Seq<(YamlModel, YamlModel)>, n: int, word: Seq<char>)
    requires
        0 <= n <= pairs.len(),
        word != "os"@,
        word != "cpu"@,
        word != "libc"@,
    ensures
        key_warnings(pairs, n).contains(DeriveWarningModel::UnknownKey { key: word })
            <==> exists|i: int| 0 <= i < n && text_in((#[trigger] pairs[i]).0) == Some(word),
    decreases n,
{
    broadcast use vstd::seq_lib::lemma_seq_contains_after_push;

    if n > 0 {
        unknown_keys_are_warned_about(pairs, n - 1, word);
    }
}

// --- What is written --------------------------------------------------------------------

/// The rule file that defines the toolchain.
pub const TOOLCHAINS_BZL: &'static str = r#"##
## @generated by pudu init. Safe to edit.
##
## The Buck2 prelude ships no Node toolchain, so pudu defines one. Swap the
## `node` attribute for an absolute path, or replace this rule entirely, to
## use a hermetic Node instead of whatever is on PATH.
##

NodeToolchainInfo = provider(fields = {"node": provider_field(typing.Any, default = None)})

def _system_node_toolchain_impl(ctx):
    return [
        DefaultInfo(),
        NodeToolchainInfo(node = RunInfo(args = [ctx.attrs.node])),
    ]

system_node_toolchain = rule(
    impl = _system_node_toolchain_impl,
    attrs = {"node": attrs.string(default = "node")},
    is_toolchain_rule = True,
)
"#;

pub const THIRD_PARTY_GITIGNORE: &'static str =
    "# Populated by `pudu vendor` in vendor mode (v2).\nvendor/\n";

pub const PLACEHOLDER_BUCK: &'static str = "# Generated by pudu. Run: pudu buckify\n";

/// A line that sets a key to a text.
pub open spec fn text_line(key: Seq<char>, pad: Seq<char>, value: Seq<char>) -> Line {
    Line::Entry { key, pad, value: TomlModel::Text(value) }
}

/// The section of one platform.
pub open spec fn platform_section(name: Seq<char>, p: PlatformModel) -> Section {
    let os = text_line("os"@, "  "@, p.os.npm());
    let cpu = text_line("cpu"@, " "@, p.cpu.npm());
    Section {
        name: seq!["platforms"@, name],
        lines: match p.libc {
            Some(l) => seq![os, cpu, text_line("libc"@, ""@, l.npm()), Line::Note(""@)],
            None => seq![os, cpu, Line::Note(""@)],
        },
    }
}

/// The opening lines of a starter configuration.
pub open spec fn opening_section(
    lockfile_path: Seq<char>,
    third_party_dir: Seq<char>,
    detected: bool,
) -> Section {
    let title = Line::Note("# Generated by `pudu init`. Edit freely."@);
    let schema = Line::Note(
        "# Full schema: https://github.com/rsJames-ttrpg/pudu/blob/main/docs/superpowers/specs/2026-08-30-pudu-design.md"@,
    );
    let todo = Line::Note("# TODO: pudu init could not find a pnpm-lock.yaml."@);
    let edit = Line::Note("# Edit `lockfile_path`, then run `pudu config check`."@);
    let blank = Line::Note(""@);
    let lockfile = text_line("lockfile_path"@, "  "@, lockfile_path);
    let dir = text_line("third_party_dir"@, ""@, third_party_dir);
    Section {
        name: Seq::empty(),
        lines: if detected {
            seq![title, schema, blank, lockfile, dir, blank]
        } else {
            seq![title, schema, blank, todo, edit, blank, lockfile, dir, blank]
        },
    }
}

/// The section of the registry: the public one.
pub open spec fn registry_section() -> Section {
    Section {
        name: seq!["registry"@],
        lines: seq![
            text_line("default"@, ""@, "https://registry.npmjs.org"@),
            Line::Note(""@),
        ],
    }
}

/// The section of the fixups: none, local ones apart.
pub open spec fn fixups_section() -> Section {
    Section {
        name: seq!["fixups"@],
        lines: seq![
            Line::Note(
                "# Community fixup registry. Leave as \"none\" until a v0.1.0+ release exists."@,
            ),
            text_line("registry"@, "             "@, "none"@),
            Line::Entry {
                key: "allow_local_overrides"@,
                pad: Seq::empty(),
                value: TomlModel::Flag(true),
            },
            Line::Note(""@),
        ],
    }
}

/// The section of the scripts: none is acknowledged.
pub open spec fn scripts_section() -> Section {
    Section {
        name: seq!["scripts"@],
        lines: seq![
            Line::Note(
                "# Packages whose lifecycle scripts are acknowledged (not run). See design §6."@,
            ),
            Line::Entry {
                key: "allow"@,
                pad: Seq::empty(),
                value: TomlModel::List(Seq::empty()),
            },
            Line::Note(""@),
        ],
    }
}

pub open spec fn buck_section(node_toolchain: Seq<char>) -> Section {
    Section {
        name: seq!["buck"@],
        lines: seq![
            text_line("file_name"@, "     "@, "BUCK"@),
            text_line("node_toolchain"@, ""@, node_toolchain),
        ],
    }
}

/// A starter configuration up to the first `n` platforms.
pub open spec fn config_head(
    lockfile_path: Seq<char>,
    third_party_dir: Seq<char>,
    platforms: Table<PlatformModel>,
    detected: bool,
    n: int,
) -> Seq<Section>
    decreases n,
{
    if n <= 0 {
        seq![opening_section(lockfile_path, third_party_dir, detected)]
    } else {
        config_head(lockfile_path, third_party_dir, platforms, detected, n - 1).push(
            platform_section(platforms[n - 1].0, platforms[n - 1].1),
        )
    }
}

/// The sections of a starter configuration.
pub open spec fn config_sections(
    lockfile_path: Seq<char>,
    third_party_dir: Seq<char>,
    node_toolchain: Seq<char>,
    platforms: Table<PlatformModel>,
    detected: bool,
) -> Seq<Section> {
    config_head(
        lockfile_path,
        third_party_dir,
        platforms,
        detected,
        platforms.len() as int,
    ).push(registry_section()).push(fixups_section()).push(scripts_section()).push(
        buck_section(node_toolchain),
    )
}

/// A starter `pudu.toml`.
pub open spec fn config_text(
    lockfile_path: Seq<char>,
    third_party_dir: Seq<char>,
    node_toolchain: Seq<char>,
    platforms: Table<PlatformModel>,
    detected: bool,
) -> Seq<char> {
    doc_text(
        config_sections(lockfile_path, third_party_dir, node_toolchain, platforms, detected),
    )
}

fn platform_lines(p: &Platform) -> (r: String)
    ensures
        ({
            let lines = platform_section(Seq::empty(), p.deep_view()).lines;
            r@ == lines_text(lines, lines.len() as int)
        }),
{
    let mut text = String::new();
    write_text(&mut text, "os", "  ", p.os.as_npm());
    write_text(&mut text, "cpu", " ", p.cpu.as_npm());
    match p.libc {
        Some(l) => {
            write_text(&mut text, "libc", "", l.as_npm());
        },
        None => {},
    }
    write_note(&mut text, "");
    proof {
        reveal_with_fuel(lines_text, 5);
    }
    text
}

fn opening_lines(lockfile_path: &str, third_party_dir: &str, detected: bool) -> (r: String)
    ensures
        r@ == section_text(opening_section(lockfile_path@, third_party_dir@, detected)),
{
    let mut text = String::new();
    write_note(&mut text, "# Generated by `pudu init`. Edit freely.");
    write_note(
        &mut text,
        "# Full schema: https://github.com/rsJames-ttrpg/pudu/blob/main/docs/superpowers/specs/2026-08-30-pudu-design.md",
    );
    write_note(&mut text, "");
    if !detected {
        write_note(&mut text, "# TODO: pudu init could not find a pnpm-lock.yaml.");
        write_note(&mut text, "# Edit `lockfile_path`, then run `pudu config check`.");
        write_note(&mut text, "");
    }
    write_text(&mut text, "lockfile_path", "  ", lockfile_path);
    write_text(&mut text, "third_party_dir", "", third_party_dir);
    write_note(&mut text, "");
    proof {
        let s = opening_section(lockfile_path@, third_party_dir@, detected);
        reveal_with_fuel(lines_text, 10);
        assert(text@ == lines_text(s.lines, s.lines.len() as int));
        assert(text@ =~= section_text(s));
    }
    text
}

fn write_registry(out: &mut String)
    ensures
        final(out)@ == old(out)@ + section_text(registry_section()),
{
    let default = default_registry_url();
    let address = trim_end(default.as_str(), '/');
    proof {
        npm_registry_without_slash();
        reveal_with_fuel(lines_text, 3);
    }
    let mut text = String::new();
    write_text(&mut text, "default", "", address.as_str());
    write_note(&mut text, "");
    write_section(out, "registry", text.as_str());
}

proof fn npm_registry_without_slash()
    ensures
        trimmed_of("https://registry.npmjs.org/"@, '/') == "https://registry.npmjs.org"@,
{
    reveal_strlit("https://registry.npmjs.org/");
    reveal_strlit("https://registry.npmjs.org");
    let s = "https://registry.npmjs.org/"@;
    assert(trim_end_at(s, '/', s.len() - 1) == s.len() - 1);
    assert(trimmed_of(s, '/') =~= "https://registry.npmjs.org"@);
}

fn write_fixups(out: &mut String)
    ensures
        final(out)@ == old(out)@ + section_text(fixups_section()),
{
    let mut text = String::new();
    write_note(
        &mut text,
        "# Community fixup registry. Leave as \"none\" until a v0.1.0+ release exists.",
    );
    write_text(&mut text, "registry", "             ", "none");
    write_flag(&mut text, "allow_local_overrides", true);
    write_note(&mut text, "");
    proof {
        reveal_with_fuel(lines_text, 5);
    }
    write_section(out, "fixups", text.as_str());
}

fn write_scripts(out: &mut String)
    ensures
        final(out)@ == old(out)@ + section_text(scripts_section()),
{
    let mut text = String::new();
    write_note(
        &mut text,
        "# Packages whose lifecycle scripts are acknowledged (not run). See design §6.",
    );
    write_empty_list(&mut text, "allow");
    write_note(&mut text, "");
    proof {
        reveal_with_fuel(lines_text, 4);
    }
    write_section(out, "scripts", text.as_str());
}

fn write_buck(out: &mut String, node_toolchain: &str)
    ensures
        final(out)@ == old(out)@ + section_text(buck_section(node_toolchain@)),
{
    let mut text = String::new();
    write_text(&mut text, "file_name", "     ", default_file_name().as_str());
    write_text(&mut text, "node_toolchain", "", node_toolchain);
    proof {
        reveal_with_fuel(lines_text, 3);
    }
    write_section(out, "buck", text.as_str());
}

/// Render the starter `pudu.toml`.
pub fn render_config(
    lockfile_path: &str,
    third_party_dir: &str,
    node_toolchain: &str,
    platforms: &Dict<Platform>,
    detected: bool,
) -> (r: String)
    ensures
        r@ == config_text(
            lockfile_path@,
            third_party_dir@,
            node_toolchain@,
            platforms.deep_view(),
            detected,
        ),
{
    let ghost table = platforms.deep_view();
    let ghost path = lockfile_path@;
    let ghost dir = third_party_dir@;
    let mut s = opening_lines(lockfile_path, third_party_dir, detected);
    proof {
        let none = Seq::<Section>::empty();
        section_pushed(none, opening_section(path, dir, detected));
        assert(none.push(opening_section(path, dir, detected)) =~= config_head(
            path,
            dir,
            table,
            detected,
            0,
        ));
        assert(doc_text(none) + s@ =~= s@);
    }
    let mut i: usize = 0;
    while i < platforms.len()
        invariant
            table == platforms.deep_view(),
            i <= table.len(),
            s@ == doc_text(config_head(path, dir, table, detected, i as int)),
        decreases table.len() - i,
    {
        let p = platforms.value(i);
        assert(table[i as int] == (platforms@[i as int].0@, p.deep_view()));
        proof {
            section_pushed(
                config_head(path, dir, table, detected, i as int),
                platform_section(table[i as int].0, p.deep_view()),
            );
        }
        write_subsection(
            &mut s,
            "platforms",
            platforms.key(i).as_str(),
            platform_lines(p).as_str(),
        );
        i += 1;
    }
    proof {
        let head = config_head(path, dir, table, detected, table.len() as int);
        section_pushed(head, registry_section());
        let head = head.push(registry_section());
        section_pushed(head, fixups_section());
        let head = head.push(fixups_section());
        section_pushed(head, scripts_section());
        let head = head.push(scripts_section());
        section_pushed(head, buck_section(node_toolchain@));
    }
    write_registry(&mut s);
    write_fixups(&mut s);
    write_scripts(&mut s);
    write_buck(&mut s, node_toolchain);
    s
}

// --- What may be written ----------------------------------------------------------------

/// Whether a project may be scaffolded: an existing configuration is overwritten only by
/// force.
pub fn may_scaffold(path: &str, config_exists: bool, force: bool) -> (r: Result<(), CliError>)
    ensures
        match r {
            Ok(_) => !config_exists || force,
            Err(e) => config_exists && !force && e.deep_view() == (CliErrorModel::ConfigExists {
                path: path@,
            }),
        },
{
    if config_exists && !force {
        Err(CliError::ConfigExists { path: path.to_owned() })
    } else {
        Ok(())
    }
}

/// Which of the third-party files are written: those that do not exist. They are the
/// user's once they exist, so force makes no difference.
pub fn third_party_writes(exists: &Vec<bool>) -> (r: Vec<bool>)
    ensures
        r.len() == exists.len(),
        forall|i: int| 0 <= i < r.len() ==> #[trigger] r@[i] == !exists@[i],
{
    let mut out: Vec<bool> = Vec::new();
    let mut i: usize = 0;
    while i < exists.len()
        invariant
            i <= exists.len(),
            out.len() == i,
            forall|k: int| 0 <= k < i ==> #[trigger] out@[k] == !exists@[k],
        decreases exists.len() - i,
    {
        out.push(!exists[i]);
        i += 1;
    }
    out
}

// --- Where things are -------------------------------------------------------------------

/// What one directory on the way up holds.
#[derive(Debug, PartialEq, Eq)]
pub struct DirProbe {
    pub dir: String,
    pub has_lockfile: bool,
    pub has_workspace_yaml: bool,
}

/// What an upward walk found.
#[derive(Debug, PartialEq, Eq)]
pub struct Detected {
    /// Where the lockfile lies.
    pub dir: String,
    pub lockfile: String,
    pub workspace_yaml: Option<String>,
}

/// Finds the lockfile nearest to where an upward walk started, and the workspace
/// file beside it.
///
/// The lockfile is the anchor rather than `package.json`: a repository holds many
/// manifests but one lockfile per workspace.
pub fn detect(walk: &Vec<DirProbe>) -> (r: Option<Detected>)
    ensures
        match r {
            None => forall|i: int| 0 <= i < walk.len() ==> !(#[trigger] walk@[i]).has_lockfile,
            Some(d) => exists|i: int|
                {
                    &&& 0 <= i < walk.len()
                    &&& (#[trigger] walk@[i]).has_lockfile
                    &&& forall|j: int| 0 <= j < i ==> !(#[trigger] walk@[j]).has_lockfile
                    &&& d.dir@ == walk@[i].dir@
                    &&& d.lockfile@ == joined(walk@[i].dir@, "pnpm-lock.yaml"@)
                    &&& d.workspace_yaml.deep_view() == if walk@[i].has_workspace_yaml {
                        Some(joined(walk@[i].dir@, "pnpm-workspace.yaml"@))
                    } else {
                        None
                    }
                },
        },
{
    let mut i: usize = 0;
    while i < walk.len()
        invariant
            i <= walk.len(),
            forall|j: int| 0 <= j < i ==> !(#[trigger] walk@[j]).has_lockfile,
        decreases walk.len() - i,
    {
        let d = &walk[i];
        if d.has_lockfile {
            let lockfile = join_path(d.dir.as_str(), "pnpm-lock.yaml");
            let workspace_yaml = if d.has_workspace_yaml {
                Some(join_path(d.dir.as_str(), "pnpm-workspace.yaml"))
            } else {
                None
            };
            assert(walk@[i as int].has_lockfile);
            return Some(Detected { dir: d.dir.clone(), lockfile, workspace_yaml });
        }
        i += 1;
    }
    None
}

/// The lockfile path to record: the one found, or a note to fill it in.
pub open spec fn lockfile_text(rel: Option<Seq<char>>) -> Seq<char> {
    match rel {
        Some(p) => slashed(p),
        None => "TODO: path to your pnpm-lock.yaml"@,
    }
}

/// Writes the lockfile path to record.
pub fn recorded_lockfile(rel: Option<&str>) -> (r: String)
    ensures
        r@ == lockfile_text(
            match rel {
                Some(p) => Some(p@),
                None => None,
            },
        ),
{
    match rel {
        Some(p) => slash_path(p),
        None => "TODO: path to your pnpm-lock.yaml".to_owned(),
    }
}

/// Where the project lies below the Buck cell root, if that is worth saying: not at
/// the root itself, and not outside it.
pub open spec fn prefix_of(rel: Seq<char>) -> Option<Seq<char>> {
    if rel.len() == 0 || split_on(rel, '/')[0] == ".."@ {
        None
    } else {
        Some(slashed(rel))
    }
}

/// Where the project lies below the Buck cell root. `rel` leads from the lockfile's
/// directory, the best guess at that root, to the project.
pub fn cell_prefix(rel: &str) -> (r: Option<String>)
    ensures
        match r {
            Some(p) => prefix_of(rel@) == Some(p@),
            None => prefix_of(rel@) is None,
        },
{
    let parts = split(rel, '/');
    assert(split_on(rel@, '/')[0] == parts@[0]@);
    if rel.is_empty() || same(parts[0].as_str(), "..") {
        None
    } else {
        Some(slash_path(rel))
    }
}

/// The label of the rule file.
pub open spec fn label_text(prefix: Option<Seq<char>>, third_party_dir: Seq<char>) -> Seq<char> {
    match prefix {
        Some(p) => "root//"@ + p + "/"@ + third_party_dir + ":toolchains.bzl"@,
        None => "root//"@ + third_party_dir + ":toolchains.bzl"@,
    }
}

/// Writes the label of the rule file.
pub fn bzl_label(prefix: Option<&str>, third_party_dir: &str) -> (r: String)
    ensures
        r@ == label_text(
            match prefix {
                Some(p) => Some(p@),
                None => None,
            },
            third_party_dir@,
        ),
{
    let mut out = "root//".to_owned();
    if let Some(p) = prefix {
        out.append(p);
        out.append("/");
    }
    out.append(third_party_dir);
    out.append(":toolchains.bzl");
    out
}

/// The label of the node toolchain to record: the user's own where there is one.
pub open spec fn toolchain_text(outcome: OutcomeModel) -> Seq<char> {
    match outcome {
        OutcomeModel::ExistingToolchain { name, parsed } => "toolchains//:"@ + name,
        _ => "toolchains//:node"@,
    }
}

proof fn target_makes_a_label(name: Seq<char>)
    requires
        is_target_name(name),
    ensures
        is_label("toolchains//:"@ + name),
{
    let s = "toolchains//:"@ + name;
    reveal_strlit("toolchains//:");
    reveal_strlit("//");
    find_is_first(s, "//"@);
    assert(s.subrange(10, 12) =~= "//"@);
    assert(occurs_at(s, "//"@, 10));
    assert forall|j: int| 0 <= j < 10 implies !occurs_at(s, "//"@, j) by {
        assert(s.subrange(j, j + 2)[0] == s[j]);
    }
    let k = find_from(s, "//"@, 0)->Some_0;
    assert(k == 10);
    let rest = s.skip(12);
    assert(rest[0] == ':');
    assert(index_from(rest, ':', 0) == 0);
    index_from_finds(rest, ':', 1);
    assert forall|i: int| 1 <= i < rest.len() implies rest[i] != ':' by {
        assert(rest[i] == name[i - 1]);
    }
    assert forall|i: int| 0 <= i < s.len() implies !is_space(#[trigger] s[i]) by {
        if i >= 13 {
            assert(s[i] == name[i - 13]);
        }
    }
}

/// The toolchain that is recorded is always a Buck target label, whatever the file
/// that it is read from holds.
pub proof fn recorded_toolchain_is_a_label(
    existing: Option<Seq<char>>,
    block: Seq<char>,
    force: bool,
)
    ensures
        is_label(toolchain_text(applied(existing, block, force).1)),
{
    reveal_strlit("node");
    reveal_strlit(".");
    reveal_strlit("..");
    reveal_strlit("toolchains//:");
    reveal_strlit("toolchains//:node");
    assert(is_target_name("node"@));
    target_makes_a_label("node"@);
    assert("toolchains//:node"@ =~= "toolchains//:"@ + "node"@);
    if let OutcomeModel::ExistingToolchain { name, parsed } = applied(existing, block, force).1 {
        assert(is_target_name(name));
        target_makes_a_label(name);
    }
}

/// What is scaffolded passes the check: nothing is wrong with a configuration that has
/// the derived platforms and the recorded toolchain, a registry on the network, no fixups
/// and no acknowledged scripts.
pub proof fn a_scaffold_passes_the_check(
    c: Config,
    sa: Option<YamlModel>,
    host_os: Os,
    host_cpu: Cpu,
    existing: Option<Seq<char>>,
    block: Seq<char>,
    force: bool,
)
    requires
        expansion(sa, host_os, host_cpu) is Ok,
        !(host_os is Win32),
        keys_increase(c.platforms.deep_view()),
        as_map(c.platforms.deep_view()) == put_all(
            Map::empty(),
            expansion(sa, host_os, host_cpu)->Ok_0.0,
        ),
        is_http(c.registry.default@),
        c.registry.scopes.deep_view().len() == 0,
        c.fixups.registry is Disabled,
        c.scripts.allow.deep_view().len() == 0,
        c.buck.node_toolchain@ == toolchain_text(applied(existing, block, force).1),
    ensures
        config_errors(c) == Seq::<ConfigErrorModel>::empty(),
{
    derived_platforms_pass_the_check(sa, host_os, host_cpu, c.platforms.deep_view());
    recorded_toolchain_is_a_label(existing, block, force);
    assert(scope_errors(c.registry.scopes.deep_view(), 0) =~= Seq::empty());
    assert(script_errors(c.scripts.allow.deep_view(), 0) =~= Seq::empty());
    assert(config_errors(c) =~= Seq::empty());
}

/// Writes the label of the node toolchain to record.
pub fn node_toolchain_label(outcome: &AppendOutcome) -> (r: String)
    ensures
        r@ == toolchain_text(outcome.deep_view()),
{
    match outcome {
        AppendOutcome::ExistingToolchain { name, parsed } => {
            let mut out = "toolchains//:".to_owned();
            out.append(name.as_str());
            out
        },
        _ => default_node_toolchain(),
    }
}

/// What to say of `toolchains/BUCK`.
pub fn outcome_warnings(outcome: &AppendOutcome, path: &str, recorded: &str) -> (r: Vec<InitWarning>)
    ensures
        r.deep_view() == match *outcome {
            AppendOutcome::ExistingToolchain { name, parsed } => {
                let found = InitWarningModel::ExistingToolchain {
                    path: path@,
                    name: name@,
                    recorded: recorded@,
                };
                if parsed {
                    seq![found]
                } else {
                    seq![
                        found,
                        InitWarningModel::ToolchainNameUnparsed { path: path@, name: name@ },
                    ]
                }
            },
            AppendOutcome::Unparseable => seq![
                InitWarningModel::UnbalancedMarkers { path: path@ },
            ],
            _ => Seq::empty(),
        },
{
    let mut out: Vec<InitWarning> = Vec::new();
    match outcome {
        AppendOutcome::ExistingToolchain { name, parsed } => {
            out.push(
                InitWarning::ExistingToolchain {
                    path: path.to_owned(),
                    name: name.clone(),
                    recorded: recorded.to_owned(),
                },
            );
            let ghost found = InitWarningModel::ExistingToolchain {
                path: path@,
                name: name@,
                recorded: recorded@,
            };
            assert(out.deep_view() =~= seq![found]);
            if !*parsed {
                out.push(
                    InitWarning::ToolchainNameUnparsed {
                        path: path.to_owned(),
                        name: name.clone(),
                    },
                );
                assert(out.deep_view() =~= seq![
                    found,
                    InitWarningModel::ToolchainNameUnparsed { path: path@, name: name@ },
                ]);
            }
        },
        AppendOutcome::Unparseable => {
            out.push(InitWarning::UnbalancedMarkers { path: path.to_owned() });
            assert(out.deep_view() =~= seq![InitWarningModel::UnbalancedMarkers { path: path@ }]);
        },
        _ => {
            assert(out.deep_view() =~= Seq::<InitWarningModel>::empty());
        },
    }
    out
}

/// What to do next.
pub fn next_steps(found: bool, outcome: &AppendOutcome) -> (r: &'static str)
    ensures
        r@ == (if !found {
            "edit `lockfile_path` in pudu.toml, then pudu config check"@
        } else {
            match *outcome {
                AppendOutcome::ExistingToolchain { name, parsed } => {
                    "check `[buck] node_toolchain` in pudu.toml, then pudu vendor && pudu buckify"@
                },
                AppendOutcome::Unparseable => {
                    "add the block above to toolchains/BUCK, then pudu vendor && pudu buckify"@
                },
                _ => "pudu vendor && pudu buckify"@,
            }
        }),
{
    if !found {
        return "edit `lockfile_path` in pudu.toml, then pudu config check";
    }
    match outcome {
        AppendOutcome::ExistingToolchain { name, parsed } => {
            "check `[buck] node_toolchain` in pudu.toml, then pudu vendor && pudu buckify"
        },
        AppendOutcome::Unparseable => {
            "add the block above to toolchains/BUCK, then pudu vendor && pudu buckify"
        },
        _ => "pudu vendor && pudu buckify",
    }
}

/// Where the lockfile was found.
#[derive(Debug, PartialEq, Eq)]
pub struct Found {
    /// From the project to the lockfile.
    pub lockfile_rel: String,
    /// From the lockfile's directory to the project, where they differ.
    pub project_rel: Option<String>,
}

/// Says where a project lies, given the way to the lockfile and the way from the
/// lockfile's directory to the project, where there is one.
pub fn found_at(
    detected: &Detected,
    root: &str,
    to_lockfile: Option<String>,
    to_project: Option<String>,
) -> (r: Found)
    ensures
        r.lockfile_rel@ == match to_lockfile {
            Some(rel) => rel@,
            None => detected.lockfile@,
        },
        r.project_rel.deep_view() == if detected.dir@ == root@ {
            None
        } else {
            Some(
                match to_project {
                    Some(rel) => rel@,
                    None => Seq::<char>::empty(),
                },
            )
        },
{
    let lockfile_rel = match to_lockfile {
        Some(rel) => rel,
        None => detected.lockfile.clone(),
    };
    let project_rel = if same(detected.dir.as_str(), root) {
        None
    } else {
        match to_project {
            Some(rel) => Some(rel),
            None => Some(String::new()),
        }
    };
    Found { lockfile_rel, project_rel }
}

/// Says where a project lies with respect to the lockfile that was detected for it.
pub fn locate(detected: &Detected, root: &str) -> (r: Found)
    ensures
        is_rooted(detected.lockfile@) && is_rooted(root@) ==> slashed(r.lockfile_rel@) == relative(
            detected.lockfile@,
            root@,
        ),
        r.project_rel is None <==> detected.dir@ == root@,
        is_rooted(detected.dir@) && is_rooted(root@) && detected.dir@ != root@ ==> slashed(
            r.project_rel->Some_0@,
        ) == relative(root@, detected.dir@),
{
    let to_lockfile = diff_paths(detected.lockfile.as_str(), root);
    let to_project = diff_paths(root, detected.dir.as_str());
    found_at(detected, root, to_lockfile, to_project)
}

/// What a project is scaffolded with.
#[derive(Debug, PartialEq)]
pub struct Scaffold {
    pub derived: DerivedPlatforms,
    /// Where the project lies below the guessed Buck cell root, if not at it.
    pub prefix: Option<String>,
    /// The block for `toolchains/BUCK`.
    pub block: String,
    /// What to write to `toolchains/BUCK`, if anything.
    pub toolchains: Option<String>,
    pub outcome: AppendOutcome,
    /// The label of the node toolchain that is recorded.
    pub node_toolchain: String,
    /// `pudu.toml`.
    pub config: String,
}

/// The prefix for a project, found or not.
pub open spec fn found_prefix(found: Option<Found>) -> Option<Seq<char>> {
    match found {
        Some(f) => match f.project_rel {
            Some(rel) => prefix_of(rel@),
            None => None,
        },
        None => None,
    }
}

/// Decides all that a project is scaffolded with. The outcome for `toolchains/BUCK`
/// comes first: it decides which toolchain the configuration records.
pub fn scaffold(
    found: &Option<Found>,
    workspace: Option<&Workspace>,
    existing: Option<&str>,
    force: bool,
    host_os: Os,
    host_cpu: Cpu,
) -> (r: Result<Scaffold, DeriveError>)
    ensures
        ({
            let want = workspace_expansion(
                match workspace {
                    Some(w) => Some(*w),
                    None => None,
                },
                host_os,
                host_cpu,
            );
            match r {
                Err(e) => want is Err && e.deep_view() == want->Err_0,
                Ok(s) => {
                    let dir = "third-party/js"@;
                    let prefix = found_prefix(*found);
                    &&& derived_agrees(want, Ok(s.derived))
                    &&& s.prefix.deep_view() == prefix
                    &&& s.block@ == block_text(label_text(prefix, dir))
                    &&& (s.toolchains.deep_view(), s.outcome.deep_view()) == applied(
                        match existing {
                            Some(text) => Some(text@),
                            None => None,
                        },
                        s.block@,
                        force,
                    )
                    &&& s.node_toolchain@ == toolchain_text(s.outcome.deep_view())
                    &&& s.config@ == config_text(
                        lockfile_text(
                            match *found {
                                Some(f) => Some(f.lockfile_rel@),
                                None => None,
                            },
                        ),
                        dir,
                        s.node_toolchain@,
                        s.derived.platforms.deep_view(),
                        found is Some,
                    )
                },
            }
        }),
{
    let derived = match derive_platforms(workspace, host_os, host_cpu) {
        Ok(d) => d,
        Err(e) => {
            return Err(e);
        },
    };
    let dir = default_third_party_dir();
    let lockfile = match found {
        Some(f) => recorded_lockfile(Some(f.lockfile_rel.as_str())),
        None => recorded_lockfile(None),
    };
    let prefix = match found {
        Some(f) => match &f.project_rel {
            Some(rel) => cell_prefix(rel.as_str()),
            None => None,
        },
        None => None,
    };
    let label = match &prefix {
        Some(p) => bzl_label(Some(p.as_str()), dir.as_str()),
        None => bzl_label(None, dir.as_str()),
    };
    let block = managed_block(label.as_str());
    let (toolchains, outcome) = apply(existing, block.as_str(), force);
    let node_toolchain = node_toolchain_label(&outcome);
    let config = render_config(
        lockfile.as_str(),
        dir.as_str(),
        node_toolchain.as_str(),
        &derived.platforms,
        found.is_some(),
    );
    Ok(Scaffold { derived, prefix, block, toolchains, outcome, node_toolchain, config })
}

/// A project outside the cell root or at it has no prefix; any other has the way down to
/// it, with slashes.
pub proof fn a_prefix_leads_down(rel: Seq<char>)
    ensures
        prefix_of(rel) is None <==> {
            ||| rel.len() == 0
            ||| rel == seq!['.', '.']
            ||| (seq!['.', '.', '/']).is_prefix_of(rel)
        },
        prefix_of(rel) is Some && !rel.contains('\\') ==> prefix_of(rel)->Some_0 == rel,
{
    reveal_strlit("..");
    let dots = seq!['.', '.'];
    let up = seq!['.', '.', '/'];
    assert(".."@ =~= dots);
    if rel.contains('/') {
        let k = rel.index_of('/');
        index_from_first(rel, '/', 0);
        index_from_finds(rel, '/', 0);
        let c = index_from(rel, '/', 0);
        let head = rel.take(c);
        let tail = rel.skip(c + 1);
        assert(rel =~= head + seq!['/'] + tail);
        split_joined(head, tail, '/');
        split_plain(head, '/');
        assert(split_on(rel, '/')[0] == head);
        if head == dots {
            assert(rel.take(3) =~= up);
        }
        if up.is_prefix_of(rel) {
            assert(rel[0] == up[0] && rel[1] == up[1] && rel[2] == up[2]);
            index_from_is(rel, '/', 0, 2);
            assert(head =~= dots);
        }
        if rel == dots {
            assert(rel[k] == '/');
        }
    } else {
        split_plain(rel, '/');
        assert(split_on(rel, '/')[0] == rel);
        if up.is_prefix_of(rel) {
            assert(rel[2] == up[2]);
        }
    }
    if prefix_of(rel) is Some && !rel.contains('\\') {
        assert forall|i: int| 0 <= i < rel.len() implies #[trigger] slashed(rel)[i] == rel[i] by {
            backslashes_become_slashes(rel, i);
            assert(rel.contains(rel[i]));
        }
        assert(slashed(rel) =~= rel);
    }
}

/// The label of the rule file names the file where it is written: below the prefix it is
/// that of the directory below it.
pub proof fn a_prefix_is_a_directory(prefix: Seq<char>, dir: Seq<char>)
    ensures
        label_text(Some(prefix), dir) == label_text(None, prefix + seq!['/'] + dir),
        label_text(None, dir).skip(6).take(dir.len() as int) == dir,
        label_text(None, dir).take(6) == "root//"@,
        label_text(None, dir).skip(6 + dir.len() as int) == ":toolchains.bzl"@,
{
    reveal_strlit("root//");
    reveal_strlit("/");
    reveal_strlit(":toolchains.bzl");
    assert("/"@ =~= seq!['/']);
    assert(label_text(Some(prefix), dir) =~= label_text(None, prefix + seq!['/'] + dir));
    assert(label_text(None, dir).skip(6).take(dir.len() as int) =~= dir);
    assert(label_text(None, dir).take(6) =~= "root//"@);
    assert(label_text(None, dir).skip(6 + dir.len() as int) =~= ":toolchains.bzl"@);
}

/// The toolchain that is recorded is the one that the file declares once the run is over:
/// the user's own, under its name, or the one of the block, under the name that the block
/// gives it.
pub proof fn the_recorded_toolchain_is_declared(
    existing: Option<Seq<char>>,
    label: Seq<char>,
    force: bool,
)
    ensures
        ({
            let outcome = applied(existing, block_text(label), force).1;
            match outcome {
                OutcomeModel::ExistingToolchain { name, .. } => toolchain_text(outcome).skip(
                    13,
                ) == name && toolchain_text(outcome).take(13) == "toolchains//:"@,
                _ => toolchain_text(outcome) == "toolchains//:"@ + "node"@,
            }
        }),
        stands_in(block_text(label), "system_node_toolchain(name = \"node\""@),
        stands_in(block_text(label), "load(\""@ + label + "\", \"system_node_toolchain\")"@),
{
    reveal_strlit("toolchains//:");
    reveal_strlit("toolchains//:node");
    reveal_strlit("node");
    reveal_strlit("\nload(\"");
    reveal_strlit("load(\"");
    reveal_strlit("\", \"system_node_toolchain\")");
    reveal_strlit("system_node_toolchain(name = \"node\"");
    reveal_strlit(
        "\", \"system_node_toolchain\")\nsystem_node_toolchain(name = \"node\", visibility = [\"PUBLIC\"])\n",
    );
    let outcome = applied(existing, block_text(label), force).1;
    assert("toolchains//:node"@ =~= "toolchains//:"@ + "node"@);
    if let OutcomeModel::ExistingToolchain { name, .. } = outcome {
        assert(toolchain_text(outcome).skip(13) =~= name);
        assert(toolchain_text(outcome).take(13) =~= "toolchains//:"@);
    }
    let block = block_text(label);
    let call = "system_node_toolchain(name = \"node\""@;
    let load = "load(\""@ + label + "\", \"system_node_toolchain\")"@;
    let b = BEGIN@.len() as int;
    let c = b + 7 + label.len() + 28;
    assert(block.subrange(c, c + call.len()) =~= call);
    assert(occurs_at(block, call, c));
    assert(block.subrange(b + 1, b + 1 + load.len()) =~= load);
    assert(occurs_at(block, load, b + 1));
}

/// The block of a workspace file is what stands under its key, unless that is null; the
/// reader's complaint, where there is one, is the last word.
pub proof fn a_workspace_has_the_block_under_its_key(
    pairs: Seq<(YamlModel, YamlModel)>,
    i: int,
    reading: Result<Option<YamlModel>, Seq<char>>,
    host_os: Os,
    host_cpu: Cpu,
)
    requires
        0 <= i < pairs.len(),
        pairs[i].0 == YamlModel::Text("supportedArchitectures"@),
        forall|j: int|
            0 <= j < i ==> (#[trigger] pairs[j]).0 != YamlModel::Text("supportedArchitectures"@),
    ensures
        ({
            let got = parsed_expansion(
                Ok(YamlModel::Mapping(pairs)),
                reading,
                host_os,
                host_cpu,
            );
            match reading {
                Err(source) => got is Err && got->Err_0 is WorkspaceParse && got->Err_0->source
                    == source,
                Ok(_) => got == expansion(
                    if pairs[i].1 is Null {
                        None
                    } else {
                        Some(pairs[i].1)
                    },
                    host_os,
                    host_cpu,
                ),
            }
        }),
{
    a_value_is_found_under_its_key(pairs, i, "supportedArchitectures"@);
}

/// Without a block, and on whatever host, the platforms are linux with glibc on both
/// architectures and darwin on arm64.
pub proof fn no_block_means_the_usual_platforms(
    host_os: Os,
    host_cpu: Cpu,
    os: Os,
    cpu: Cpu,
    libc: Option<Libc>,
)
    ensures
        expansion(None, host_os, host_cpu) is Ok,
        (exists|i: int|
            {
                let list = expansion(None, host_os, host_cpu)->Ok_0.0;
                &&& 0 <= i < list.len()
                &&& (#[trigger] expansion(None, host_os, host_cpu)->Ok_0.0[i]).1.os == os
                &&& list[i].1.cpu == cpu
                &&& list[i].1.libc == libc
            }) <==> (os is Linux && libc == Some(Libc::Glibc)) || (os is Darwin && cpu is Arm64
            && libc is None),
{
    let list = expansion(None, host_os, host_cpu)->Ok_0.0;
    assert(list[0] == named_platform(Os::Linux, Cpu::X64, Some(Libc::Glibc)));
    assert(list[1] == named_platform(Os::Linux, Cpu::Arm64, Some(Libc::Glibc)));
    assert(list[2] == named_platform(Os::Darwin, Cpu::Arm64, None));
    assert(list.len() == 3);
}

/// A lockfile that was found is recorded where it was found; one that was not is left to
/// be filled in.
pub proof fn a_found_lockfile_is_recorded(rel: Seq<char>)
    requires
        !rel.contains('\\'),
    ensures
        lockfile_text(Some(rel)) == rel,
        "TODO"@.is_prefix_of(lockfile_text(None)),
{
    reveal_strlit("TODO");
    reveal_strlit("TODO: path to your pnpm-lock.yaml");
    assert forall|i: int| 0 <= i < rel.len() implies #[trigger] slashed(rel)[i] == rel[i] by {
        backslashes_become_slashes(rel, i);
        assert(rel.contains(rel[i]));
    }
    assert(slashed(rel) =~= rel);
    assert("TODO"@ =~= lockfile_text(None).take(4));
}

} // verus!
