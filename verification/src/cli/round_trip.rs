//! What a starter configuration says when it is read.

use vstd::prelude::*;

use crate::cli::init::{
    a_scaffold_passes_the_check, buck_section, config_head, config_sections, config_text,
    derived_platforms_are_sound, expansion, fixups_section, name_text, opening_section,
    platform_section, registry_section, scripts_section, text_line, toolchain_text,
};
use crate::cli::toolchain::{applied, is_target_name, OutcomeModel};
use crate::config::{
    config_errors, file_config, fixup_registry_of, url_text, Config, FixupRegistryModel,
    PlatformModel, RawConfig,
};
use crate::config_doc::{
    buck_of, cpu_named, fixups_of, labels_of, libc_named, only_keys, os_named, platform_of,
    platforms_of, raw_of, registry_of, scopes_of, scripts_of, top_keys, RawModel,
};
use crate::dict::{
    as_map, has_key, increasing_tables_agree, key_index_is, keys_increase, lookup_is_map, put_all,
    put_all_is_map, put_all_members, value_from, value_from_is_lookup, with_entry,
    with_entry_is_insert,
};
use crate::error::{ConfigError, ConfigErrorModel};
use crate::lock::types::Table;
use crate::platform::{Cpu, Libc, Os};
use crate::text::text_lt_irreflexive;
use crate::toml_doc::{
    doc_table, is_bare, is_unescaped, lines_table, plain_doc, plain_line,
    plain_section, section_pushed, sections_apart, Line, Section, TomlModel,
};
use crate::yaml::YamlModel;

verus! {

/// Names and values that stand in a file as they are: nothing to escape, platform names
/// that need no quotes, and platforms without constraint labels.
pub open spec fn writable(
    lockfile_path: Seq<char>,
    third_party_dir: Seq<char>,
    node_toolchain: Seq<char>,
    platforms: Table<PlatformModel>,
) -> bool {
    &&& is_unescaped(lockfile_path)
    &&& is_unescaped(third_party_dir)
    &&& is_unescaped(node_toolchain)
    &&& forall|i: int|
        0 <= i < platforms.len() ==> is_bare((#[trigger] platforms[i]).0)
            && platforms[i].1.constraints is None
}

// --- Tables -----------------------------------------------------------------------------

/// A table in key order is read by its map.
proof fn read_by_map(t: Table<TomlModel>, k: Seq<char>)
    requires
        keys_increase(t),
    ensures
        value_from(t, k, 0) == if as_map(t).contains_key(k) {
            Some(as_map(t)[k])
        } else {
            None
        },
{
    value_from_is_lookup(t, k, 0);
    lookup_is_map(t, k);
}

proof fn keys_by_map(t: Table<TomlModel>, known: Seq<Seq<char>>)
    requires
        forall|k: Seq<char>| #[trigger] as_map(t).contains_key(k) ==> known.contains(k),
    ensures
        only_keys(t, known),
{
    assert forall|i: int| 0 <= i < t.len() implies known.contains((#[trigger] t[i]).0) by {
        assert(has_key(t, t[i].0));
        assert(as_map(t).contains_key(t[i].0));
    }
}

proof fn nothing_is_in_order()
    ensures
        keys_increase(Seq::<(Seq<char>, TomlModel)>::empty()),
        as_map(Seq::<(Seq<char>, TomlModel)>::empty()) == Map::<Seq<char>, TomlModel>::empty(),
{
    assert(as_map(Seq::<(Seq<char>, TomlModel)>::empty()) =~= Map::empty());
}

/// What the lines of a platform enter.
pub open spec fn platform_fields(p: PlatformModel) -> Table<TomlModel> {
    let lines = platform_section(Seq::empty(), p).lines;
    lines_table(Seq::empty(), lines, lines.len() as int)
}

/// npm's names tell the platforms apart.
proof fn npm_names_differ(os: Os, other: Os, cpu: Cpu, another: Cpu, libc: Libc, third: Libc)
    ensures
        os.npm() == other.npm() ==> os == other,
        cpu.npm() == another.npm() ==> cpu == another,
        libc.npm() == third.npm() ==> libc == third,
{
    reveal_strlit("linux");
    reveal_strlit("darwin");
    reveal_strlit("win32");
    reveal_strlit("x64");
    reveal_strlit("arm64");
    reveal_strlit("glibc");
    reveal_strlit("musl");
    assert("linux"@[0] != "win32"@[0]);
    assert("linux"@.len() != "darwin"@.len());
    assert("win32"@.len() != "darwin"@.len());
    assert("x64"@.len() != "arm64"@.len());
    assert("glibc"@.len() != "musl"@.len());
}

proof fn platform_reads_back(p: PlatformModel)
    requires
        p.constraints is None,
    ensures
        platform_of(TomlModel::Table(platform_fields(p))) == Some(p),
{
    reveal_strlit("os");
    reveal_strlit("cpu");
    reveal_strlit("libc");
    reveal_strlit("constraints");
    reveal_with_fuel(lines_table, 5);
    nothing_is_in_order();
    let none = Seq::<(Seq<char>, TomlModel)>::empty();
    let os = TomlModel::Text(p.os.npm());
    let cpu = TomlModel::Text(p.cpu.npm());
    let a = with_entry(none, "os"@, os);
    let b = with_entry(a, "cpu"@, cpu);
    with_entry_is_insert(none, "os"@, os);
    with_entry_is_insert(a, "cpu"@, cpu);
    let t = platform_fields(p);
    match p.libc {
        Some(l) => {
            let libc = TomlModel::Text(l.npm());
            with_entry_is_insert(b, "libc"@, libc);
            assert(t == with_entry(b, "libc"@, libc));
        },
        None => {
            assert(t == b);
        },
    }
    read_by_map(t, "os"@);
    read_by_map(t, "cpu"@);
    read_by_map(t, "libc"@);
    read_by_map(t, "constraints"@);
    let known = seq!["os"@, "cpu"@, "libc"@, "constraints"@];
    assert(known[0] == "os"@ && known[1] == "cpu"@ && known[2] == "libc"@);
    keys_by_map(t, known);
    let libc = match p.libc {
        Some(l) => l,
        None => Libc::Glibc,
    };
    npm_names_differ(p.os, Os::Linux, p.cpu, Cpu::X64, libc, Libc::Glibc);
    npm_names_differ(p.os, Os::Darwin, p.cpu, Cpu::Arm64, libc, Libc::Musl);
    assert(value_from(t, "os"@, 0) == Some(os));
    assert(value_from(t, "cpu"@, 0) == Some(cpu));
    assert(value_from(t, "constraints"@, 0) is None);
    assert(os_named(value_from(t, "os"@, 0)) == Some(p.os));
    assert(cpu_named(value_from(t, "cpu"@, 0)) == Some(p.cpu));
    assert(libc_named(value_from(t, "libc"@, 0)) == Some(p.libc));
    assert(labels_of(value_from(t, "constraints"@, 0)) == Some(p.constraints));
}

/// The tables of the first `n` platforms, under their names.
pub open spec fn platform_rows(platforms: Table<PlatformModel>, n: int) -> Table<TomlModel> {
    Seq::new(
        n as nat,
        |i: int| (platforms[i].0, TomlModel::Table(platform_fields(platforms[i].1))),
    )
}

/// The rows are read as the platforms.
proof fn platforms_read_back(platforms: Table<PlatformModel>)
    requires
        forall|i: int| 0 <= i < platforms.len() ==> (#[trigger] platforms[i]).1.constraints is None,
    ensures
        platforms_of(platform_rows(platforms, platforms.len() as int)) == Some(platforms),
{
    let rows = platform_rows(platforms, platforms.len() as int);
    assert forall|i: int| 0 <= i < rows.len() implies platform_of((#[trigger] rows[i]).1) == Some(
        platforms[i].1,
    ) by {
        platform_reads_back(platforms[i].1);
    }
    assert(platforms_of(rows)->Some_0 =~= platforms);
}

/// What the opening lines set.
pub open spec fn opening_map(path: Seq<char>, dir: Seq<char>) -> Map<Seq<char>, TomlModel> {
    Map::<Seq<char>, TomlModel>::empty().insert("lockfile_path"@, TomlModel::Text(path)).insert(
        "third_party_dir"@,
        TomlModel::Text(dir),
    )
}

/// What is set up to the first `n` platforms.
pub open spec fn head_map(
    path: Seq<char>,
    dir: Seq<char>,
    platforms: Table<PlatformModel>,
    n: int,
) -> Map<Seq<char>, TomlModel> {
    if n <= 0 {
        opening_map(path, dir)
    } else {
        opening_map(path, dir).insert(
            "platforms"@,
            TomlModel::Table(platform_rows(platforms, n)),
        )
    }
}

proof fn opening_table(path: Seq<char>, dir: Seq<char>, detected: bool)
    ensures
        ({
            let s = opening_section(path, dir, detected);
            let t = lines_table(Seq::empty(), s.lines, s.lines.len() as int);
            keys_increase(t) && as_map(t) == opening_map(path, dir)
        }),
{
    reveal_with_fuel(lines_table, 10);
    nothing_is_in_order();
    let none = Seq::<(Seq<char>, TomlModel)>::empty();
    let a = with_entry(none, "lockfile_path"@, TomlModel::Text(path));
    with_entry_is_insert(none, "lockfile_path"@, TomlModel::Text(path));
    with_entry_is_insert(a, "third_party_dir"@, TomlModel::Text(dir));
    let s = opening_section(path, dir, detected);
    assert(lines_table(none, s.lines, s.lines.len() as int) == with_entry(
        a,
        "third_party_dir"@,
        TomlModel::Text(dir),
    ));
}

/// What the opening lines and the first `n` platforms enter.
proof fn head_table(
    path: Seq<char>,
    dir: Seq<char>,
    platforms: Table<PlatformModel>,
    detected: bool,
    n: int,
)
    requires
        keys_increase(platforms),
        0 <= n <= platforms.len(),
    ensures
        config_head(path, dir, platforms, detected, n).len() == n + 1,
        keys_increase(doc_table(config_head(path, dir, platforms, detected, n), n + 1)),
        as_map(doc_table(config_head(path, dir, platforms, detected, n), n + 1)) == head_map(
            path,
            dir,
            platforms,
            n,
        ),
    decreases n,
{
    reveal_strlit("lockfile_path");
    reveal_strlit("third_party_dir");
    reveal_strlit("platforms");
    let head = config_head(path, dir, platforms, detected, n);
    if n == 0 {
        opening_table(path, dir, detected);
        reveal_with_fuel(doc_table, 2);
        assert(head[0] == opening_section(path, dir, detected));
    } else {
        head_table(path, dir, platforms, detected, n - 1);
        let front = config_head(path, dir, platforms, detected, n - 1);
        let (name, p) = platforms[n - 1];
        let s = platform_section(name, p);
        section_pushed(front, s);
        let t = doc_table(front, n);
        read_by_map(t, "platforms"@);
        let before = platform_rows(platforms, n - 1);
        let row = TomlModel::Table(platform_fields(p));
        let after = with_entry(before, name, row);
        if n == 1 {
            assert(before =~= Seq::empty());
        } else {
            text_lt_irreflexive(name);
            assert(before.last().0 == platforms[n - 2].0);
        }
        assert(after =~= platform_rows(platforms, n));
        assert(doc_table(head, n + 1) == with_entry(t, "platforms"@, TomlModel::Table(after)));
        with_entry_is_insert(t, "platforms"@, TomlModel::Table(after));
        assert(head_map(path, dir, platforms, n - 1).insert("platforms"@, TomlModel::Table(after))
            =~= head_map(path, dir, platforms, n));
    }
}

/// What the lines of a section enter.
pub open spec fn section_fields(s: Section) -> Table<TomlModel> {
    lines_table(Seq::empty(), s.lines, s.lines.len() as int)
}

/// What a starter configuration sets.
pub open spec fn config_map(
    path: Seq<char>,
    dir: Seq<char>,
    toolchain: Seq<char>,
    platforms: Table<PlatformModel>,
) -> Map<Seq<char>, TomlModel> {
    head_map(path, dir, platforms, platforms.len() as int).insert(
        "registry"@,
        TomlModel::Table(section_fields(registry_section())),
    ).insert("fixups"@, TomlModel::Table(section_fields(fixups_section()))).insert(
        "scripts"@,
        TomlModel::Table(section_fields(scripts_section())),
    ).insert("buck"@, TomlModel::Table(section_fields(buck_section(toolchain))))
}

/// What the sections of a starter configuration enter.
proof fn config_table(
    path: Seq<char>,
    dir: Seq<char>,
    toolchain: Seq<char>,
    platforms: Table<PlatformModel>,
    detected: bool,
)
    requires
        keys_increase(platforms),
    ensures
        ({
            let doc = config_sections(path, dir, toolchain, platforms, detected);
            let t = doc_table(doc, doc.len() as int);
            keys_increase(t) && as_map(t) == config_map(path, dir, toolchain, platforms)
        }),
{
    let n = platforms.len() as int;
    head_table(path, dir, platforms, detected, n);
    let d0 = config_head(path, dir, platforms, detected, n);
    let t0 = doc_table(d0, d0.len() as int);
    section_pushed(d0, registry_section());
    with_entry_is_insert(t0, "registry"@, TomlModel::Table(section_fields(registry_section())));
    let d1 = d0.push(registry_section());
    let t1 = doc_table(d1, d1.len() as int);
    section_pushed(d1, fixups_section());
    with_entry_is_insert(t1, "fixups"@, TomlModel::Table(section_fields(fixups_section())));
    let d2 = d1.push(fixups_section());
    let t2 = doc_table(d2, d2.len() as int);
    section_pushed(d2, scripts_section());
    with_entry_is_insert(t2, "scripts"@, TomlModel::Table(section_fields(scripts_section())));
    let d3 = d2.push(scripts_section());
    let t3 = doc_table(d3, d3.len() as int);
    section_pushed(d3, buck_section(toolchain));
    with_entry_is_insert(
        t3,
        "buck"@,
        TomlModel::Table(section_fields(buck_section(toolchain))),
    );
}

// --- Sections read ----------------------------------------------------------------------

proof fn registry_reads_back()
    ensures
        match url_text("https://registry.npmjs.org"@) {
            Some(default) => registry_of(section_fields(registry_section())) == Some(
                (default, Seq::<(Seq<char>, Seq<char>)>::empty()),
            ),
            None => true,
        },
{
    reveal_with_fuel(lines_table, 3);
    reveal_with_fuel(scopes_of, 2);
    let t = section_fields(registry_section());
    let address = TomlModel::Text("https://registry.npmjs.org"@);
    assert(t == with_entry(Seq::empty(), "default"@, address));
    assert(t =~= seq![("default"@, address)]);
    assert(value_from(t, "default"@, 0) == Some(address));
}

proof fn fixups_read_back()
    ensures
        fixups_of(section_fields(fixups_section())) == Some(("none"@, None::<Seq<char>>, true)),
{
    reveal_strlit("registry");
    reveal_strlit("registry_rev");
    reveal_strlit("allow_local_overrides");
    reveal_with_fuel(lines_table, 5);
    nothing_is_in_order();
    let none = Seq::<(Seq<char>, TomlModel)>::empty();
    let a = with_entry(none, "registry"@, TomlModel::Text("none"@));
    with_entry_is_insert(none, "registry"@, TomlModel::Text("none"@));
    with_entry_is_insert(a, "allow_local_overrides"@, TomlModel::Flag(true));
    let t = section_fields(fixups_section());
    assert(t == with_entry(a, "allow_local_overrides"@, TomlModel::Flag(true)));
    read_by_map(t, "registry"@);
    read_by_map(t, "registry_rev"@);
    read_by_map(t, "allow_local_overrides"@);
    let known = seq!["registry"@, "registry_rev"@, "allow_local_overrides"@];
    assert(known[0] == "registry"@ && known[2] == "allow_local_overrides"@);
    keys_by_map(t, known);
}

proof fn scripts_read_back()
    ensures
        scripts_of(section_fields(scripts_section())) == Some(Seq::<Seq<char>>::empty()),
{
    reveal_with_fuel(lines_table, 4);
    let t = section_fields(scripts_section());
    let list = TomlModel::List(Seq::empty());
    assert(t == with_entry(Seq::empty(), "allow"@, list));
    assert(t =~= seq![("allow"@, list)]);
    assert(value_from(t, "allow"@, 0) == Some(list));
    let known = seq!["allow"@];
    assert(known[0] == "allow"@);
    assert(only_keys(t, known));
    assert(scripts_of(t)->Some_0 =~= Seq::<Seq<char>>::empty());
}

proof fn buck_reads_back(toolchain: Seq<char>)
    ensures
        buck_of(section_fields(buck_section(toolchain))) == Some(("BUCK"@, toolchain)),
{
    reveal_strlit("file_name");
    reveal_strlit("node_toolchain");
    reveal_with_fuel(lines_table, 3);
    nothing_is_in_order();
    let none = Seq::<(Seq<char>, TomlModel)>::empty();
    let a = with_entry(none, "file_name"@, TomlModel::Text("BUCK"@));
    with_entry_is_insert(none, "file_name"@, TomlModel::Text("BUCK"@));
    with_entry_is_insert(a, "node_toolchain"@, TomlModel::Text(toolchain));
    let t = section_fields(buck_section(toolchain));
    assert(t == with_entry(a, "node_toolchain"@, TomlModel::Text(toolchain)));
    read_by_map(t, "file_name"@);
    read_by_map(t, "node_toolchain"@);
    let known = seq!["file_name"@, "node_toolchain"@];
    assert(known[0] == "file_name"@ && known[1] == "node_toolchain"@);
    keys_by_map(t, known);
}

/// What a starter configuration spells out.
pub open spec fn starter_raw(
    path: Seq<char>,
    dir: Seq<char>,
    toolchain: Seq<char>,
    platforms: Table<PlatformModel>,
    default: Seq<char>,
) -> RawModel {
    RawModel {
        lockfile_path: path,
        third_party_dir: dir,
        platforms,
        default,
        scopes: Seq::empty(),
        fixup_registry: "none"@,
        registry_rev: None,
        allow_local_overrides: true,
        scripts_allow: Seq::empty(),
        file_name: "BUCK"@,
        node_toolchain: toolchain,
    }
}

proof fn table_reads_back(
    t: Table<TomlModel>,
    path: Seq<char>,
    dir: Seq<char>,
    toolchain: Seq<char>,
    platforms: Table<PlatformModel>,
    default: Seq<char>,
)
    requires
        keys_increase(t),
        as_map(t) == config_map(path, dir, toolchain, platforms),
        forall|i: int| 0 <= i < platforms.len() ==> (#[trigger] platforms[i]).1.constraints is None,
        url_text("https://registry.npmjs.org"@) == Some(default),
    ensures
        raw_of(t) == Some(starter_raw(path, dir, toolchain, platforms, default)),
{
    reveal_strlit("lockfile_path");
    reveal_strlit("third_party_dir");
    reveal_strlit("platforms");
    reveal_strlit("registry");
    reveal_strlit("fixups");
    reveal_strlit("scripts");
    reveal_strlit("buck");
    read_by_map(t, "lockfile_path"@);
    read_by_map(t, "third_party_dir"@);
    read_by_map(t, "platforms"@);
    read_by_map(t, "registry"@);
    read_by_map(t, "fixups"@);
    read_by_map(t, "scripts"@);
    read_by_map(t, "buck"@);
    let known = top_keys();
    assert(known[0] == "lockfile_path"@ && known[1] == "third_party_dir"@ && known[2]
        == "platforms"@ && known[3] == "registry"@ && known[4] == "fixups"@ && known[5]
        == "scripts"@ && known[6] == "buck"@);
    keys_by_map(t, known);
    registry_reads_back();
    fixups_read_back();
    scripts_read_back();
    buck_reads_back(toolchain);
    platforms_read_back(platforms);
    assert(platforms.len() == 0 ==> platform_rows(platforms, 0) =~= Seq::empty());
}

// --- Plain sections ---------------------------------------------------------------------

proof fn opening_is_plain(path: Seq<char>, dir: Seq<char>, detected: bool)
    requires
        is_unescaped(path),
        is_unescaped(dir),
    ensures
        plain_section(opening_section(path, dir, detected)),
{
    let s = opening_section(path, dir, detected);
    assert(plain_line(Line::Note(""@))) by {
        reveal_strlit("");
    }
    assert(plain_line(Line::Note("# Generated by `pudu init`. Edit freely."@))) by {
        reveal_strlit("# Generated by `pudu init`. Edit freely.");
    }
    assert(plain_line(
        Line::Note(
            "# Full schema: https://github.com/rsJames-ttrpg/pudu/blob/main/docs/superpowers/specs/2026-08-30-pudu-design.md"@,
        ),
    )) by {
        reveal_strlit(
            "# Full schema: https://github.com/rsJames-ttrpg/pudu/blob/main/docs/superpowers/specs/2026-08-30-pudu-design.md",
        );
    }
    assert(plain_line(Line::Note("# TODO: pudu init could not find a pnpm-lock.yaml."@))) by {
        reveal_strlit("# TODO: pudu init could not find a pnpm-lock.yaml.");
    }
    assert(plain_line(Line::Note("# Edit `lockfile_path`, then run `pudu config check`."@))) by {
        reveal_strlit("# Edit `lockfile_path`, then run `pudu config check`.");
    }
    reveal_strlit("lockfile_path");
    reveal_strlit("third_party_dir");
    reveal_strlit("");
    reveal_strlit("  ");
    assert(plain_line(text_line("lockfile_path"@, "  "@, path)));
    assert(plain_line(text_line("third_party_dir"@, ""@, dir)));
}

proof fn platform_is_plain(name: Seq<char>, p: PlatformModel)
    requires
        is_bare(name),
    ensures
        plain_section(platform_section(name, p)),
{
    reveal_strlit("platforms");
    reveal_strlit("os");
    reveal_strlit("cpu");
    reveal_strlit("libc");
    reveal_strlit("");
    reveal_strlit(" ");
    reveal_strlit("  ");
    npm_names_are_plain(p);
    assert(plain_line(Line::Note(""@)));
    assert(plain_line(text_line("os"@, "  "@, p.os.npm())));
    assert(plain_line(text_line("cpu"@, " "@, p.cpu.npm())));
    if let Some(l) = p.libc {
        assert(plain_line(text_line("libc"@, ""@, l.npm())));
    }
}

proof fn npm_names_are_plain(p: PlatformModel)
    ensures
        is_unescaped(p.os.npm()),
        is_unescaped(p.cpu.npm()),
        p.libc is Some ==> is_unescaped(p.libc->Some_0.npm()),
{
    reveal_strlit("linux");
    reveal_strlit("darwin");
    reveal_strlit("win32");
    reveal_strlit("x64");
    reveal_strlit("arm64");
    reveal_strlit("glibc");
    reveal_strlit("musl");
}

proof fn registry_is_plain()
    ensures
        plain_section(registry_section()),
{
    reveal_strlit("registry");
    reveal_strlit("default");
    reveal_strlit("https://registry.npmjs.org");
    reveal_strlit("");
    assert(plain_line(text_line("default"@, ""@, "https://registry.npmjs.org"@)));
    assert(plain_line(Line::Note(""@)));
}

proof fn fixups_are_plain()
    ensures
        plain_section(fixups_section()),
{
    reveal_strlit("fixups");
    reveal_strlit("registry");
    reveal_strlit("none");
    reveal_strlit("allow_local_overrides");
    reveal_strlit("             ");
    reveal_strlit("");
    assert(plain_line(
        Line::Note("# Community fixup registry. Leave as \"none\" until a v0.1.0+ release exists."@),
    )) by {
        reveal_strlit(
            "# Community fixup registry. Leave as \"none\" until a v0.1.0+ release exists.",
        );
    }
    assert(plain_line(text_line("registry"@, "             "@, "none"@)));
    assert(plain_line(Line::Note(""@)));
}

proof fn scripts_are_plain()
    ensures
        plain_section(scripts_section()),
{
    reveal_strlit("scripts");
    reveal_strlit("allow");
    reveal_strlit("");
    assert(plain_line(
        Line::Note("# Packages whose lifecycle scripts are acknowledged (not run). See design §6."@),
    )) by {
        reveal_strlit(
            "# Packages whose lifecycle scripts are acknowledged (not run). See design §6.",
        );
    }
    assert(plain_line(Line::Note(""@)));
}

proof fn buck_is_plain(toolchain: Seq<char>)
    requires
        is_unescaped(toolchain),
    ensures
        plain_section(buck_section(toolchain)),
{
    reveal_strlit("buck");
    reveal_strlit("file_name");
    reveal_strlit("node_toolchain");
    reveal_strlit("BUCK");
    reveal_strlit("     ");
    reveal_strlit("");
    assert(plain_line(text_line("file_name"@, "     "@, "BUCK"@)));
    assert(plain_line(text_line("node_toolchain"@, ""@, toolchain)));
}

proof fn plain_pushed(doc: Seq<Section>, s: Section)
    requires
        plain_doc(doc),
        plain_section(s),
        forall|i: int| 0 <= i < doc.len() ==> sections_apart(#[trigger] doc[i], s),
    ensures
        plain_doc(doc.push(s)),
{
    let d = doc.push(s);
    assert forall|i: int| 0 <= i < d.len() implies plain_section(#[trigger] d[i]) by {
        if i < doc.len() {
            assert(d[i] == doc[i]);
        }
    }
    assert forall|i: int, j: int| 0 <= i < j < d.len() implies sections_apart(
        #[trigger] d[i],
        #[trigger] d[j],
    ) by {
        assert(d[i] == doc[i]);
        if j < doc.len() {
            assert(d[j] == doc[j]);
        }
    }
}

/// A short name is none of the keys that the opening lines set.
proof fn opening_stands_apart(path: Seq<char>, dir: Seq<char>, detected: bool, s: Section)
    requires
        s.name.len() > 0,
        s.name[0].len() < 13,
    ensures
        sections_apart(opening_section(path, dir, detected), s),
{
    reveal_strlit("lockfile_path");
    reveal_strlit("third_party_dir");
}

/// The opening lines come first, then one section for each platform.
proof fn head_sections(
    path: Seq<char>,
    dir: Seq<char>,
    platforms: Table<PlatformModel>,
    detected: bool,
    n: int,
    i: int,
)
    requires
        0 <= i <= n,
    ensures
        config_head(path, dir, platforms, detected, n).len() == n + 1,
        config_head(path, dir, platforms, detected, n)[i] == if i == 0 {
            opening_section(path, dir, detected)
        } else {
            platform_section(platforms[i - 1].0, platforms[i - 1].1)
        },
    decreases n,
{
    if n > 0 {
        head_sections(path, dir, platforms, detected, n - 1, if i < n { i } else { 0 });
    }
}

proof fn head_is_plain(
    path: Seq<char>,
    dir: Seq<char>,
    toolchain: Seq<char>,
    platforms: Table<PlatformModel>,
    detected: bool,
    n: int,
)
    requires
        writable(path, dir, toolchain, platforms),
        keys_increase(platforms),
        0 <= n <= platforms.len(),
    ensures
        plain_doc(config_head(path, dir, platforms, detected, n)),
    decreases n,
{
    if n == 0 {
        opening_is_plain(path, dir, detected);
    } else {
        head_is_plain(path, dir, toolchain, platforms, detected, n - 1);
        let front = config_head(path, dir, platforms, detected, n - 1);
        let (name, p) = platforms[n - 1];
        let s = platform_section(name, p);
        platform_is_plain(name, p);
        assert forall|i: int| 0 <= i < front.len() implies sections_apart(#[trigger] front[i], s) by {
            head_sections(path, dir, platforms, detected, n - 1, 0);
            head_sections(path, dir, platforms, detected, n - 1, i);
            if i == 0 {
                reveal_strlit("platforms");
                opening_stands_apart(path, dir, detected, s);
            } else {
                text_lt_irreflexive(name);
                assert(platforms[i - 1].0 != platforms[n - 1].0);
                assert(front[i].name[1] != s.name[1]);
            }
        }
        plain_pushed(front, s);
    }
}

proof fn config_is_plain(
    path: Seq<char>,
    dir: Seq<char>,
    toolchain: Seq<char>,
    platforms: Table<PlatformModel>,
    detected: bool,
)
    requires
        writable(path, dir, toolchain, platforms),
        keys_increase(platforms),
    ensures
        plain_doc(config_sections(path, dir, toolchain, platforms, detected)),
{
    reveal_strlit("platforms");
    reveal_strlit("registry");
    reveal_strlit("fixups");
    reveal_strlit("scripts");
    reveal_strlit("buck");
    let n = platforms.len() as int;
    head_is_plain(path, dir, toolchain, platforms, detected, n);
    registry_is_plain();
    fixups_are_plain();
    scripts_are_plain();
    buck_is_plain(toolchain);
    let d0 = config_head(path, dir, platforms, detected, n);
    assert forall|i: int, s: Section|
        0 <= i < d0.len() && s.name.len() == 1 && s.name[0].len() < 9 implies #[trigger] sections_apart(
        d0[i],
        s,
    ) by {
        head_sections(path, dir, platforms, detected, n, 0);
        head_sections(path, dir, platforms, detected, n, i);
        if i == 0 {
            opening_stands_apart(path, dir, detected, s);
        }
    }
    plain_pushed(d0, registry_section());
    let d1 = d0.push(registry_section());
    plain_pushed(d1, fixups_section());
    let d2 = d1.push(fixups_section());
    plain_pushed(d2, scripts_section());
    let d3 = d2.push(scripts_section());
    plain_pushed(d3, buck_section(toolchain));
}

// --- The round trip ---------------------------------------------------------------------

/// A starter configuration reads back as what it was rendered from, and where it does not
/// follow its arguments, as what a configuration is that leaves the key out. `default` is
/// the address of the public registry in normal form.
pub proof fn a_starter_config_reads_back(
    lockfile_path: Seq<char>,
    third_party_dir: Seq<char>,
    node_toolchain: Seq<char>,
    platforms: Table<PlatformModel>,
    detected: bool,
    default: Seq<char>,
    reading: Result<RawConfig, String>,
    path: Seq<char>,
    r: Result<Config, ConfigError>,
)
    requires
        writable(lockfile_path, third_party_dir, node_toolchain, platforms),
        keys_increase(platforms),
        url_text("https://registry.npmjs.org"@) == Some(default),
        file_config(
            config_text(lockfile_path, third_party_dir, node_toolchain, platforms, detected),
            reading,
            path,
            r,
        ),
    ensures
        r is Ok,
        r->Ok_0.lockfile_path@ == lockfile_path,
        r->Ok_0.third_party_dir@ == third_party_dir,
        r->Ok_0.platforms.deep_view() == platforms,
        r->Ok_0.registry.default@ == default,
        r->Ok_0.registry.scopes.deep_view() == Seq::<(Seq<char>, Seq<char>)>::empty(),
        r->Ok_0.fixups.registry is Disabled,
        r->Ok_0.fixups.registry_rev is None,
        r->Ok_0.fixups.allow_local_overrides,
        r->Ok_0.scripts.allow.deep_view() == Seq::<Seq<char>>::empty(),
        r->Ok_0.buck.file_name@ == "BUCK"@,
        r->Ok_0.buck.node_toolchain@ == node_toolchain,
{
    let doc = config_sections(lockfile_path, third_party_dir, node_toolchain, platforms, detected);
    let t = doc_table(doc, doc.len() as int);
    config_is_plain(lockfile_path, third_party_dir, node_toolchain, platforms, detected);
    config_table(lockfile_path, third_party_dir, node_toolchain, platforms, detected);
    table_reads_back(t, lockfile_path, third_party_dir, node_toolchain, platforms, default);
    put_all_is_map(platforms);
    assert(fixup_registry_of("none"@) == Some(FixupRegistryModel::Disabled));
    let c = r->Ok_0;
    increasing_tables_agree(c.platforms.deep_view(), platforms);
    let scopes = c.registry.scopes.deep_view();
    assert(scopes.len() == 0) by {
        if scopes.len() > 0 {
            assert(has_key(scopes, scopes[0].0));
            assert(as_map(scopes).contains_key(scopes[0].0));
        }
    }
    let allow = c.scripts.allow.deep_view();
    assert(allow.len() == 0) by {
        if allow.len() > 0 {
            assert(allow.to_set().contains(allow[0]));
        }
    }
}

/// The name of a derived platform needs no quotes.
proof fn platform_name_is_bare(os: Os, cpu: Cpu, libc: Option<Libc>)
    ensures
        is_bare(name_text(os, cpu, libc)),
{
    reveal_strlit("linux");
    reveal_strlit("darwin");
    reveal_strlit("win32");
    reveal_strlit("x64");
    reveal_strlit("arm64");
    reveal_strlit("gnu");
    reveal_strlit("musl");
    reveal_strlit("-");
}

proof fn toolchain_is_unescaped(existing: Option<Seq<char>>, block: Seq<char>, force: bool)
    ensures
        is_unescaped(toolchain_text(applied(existing, block, force).1)),
{
    reveal_strlit("toolchains//:");
    reveal_strlit("toolchains//:node");
    if let OutcomeModel::ExistingToolchain { name, parsed } = applied(existing, block, force).1 {
        reveal_strlit("node");
        assert(is_target_name(name) || name == "node"@);
    }
}

/// What is scaffolded passes the check: the file that is written for the derived platforms
/// and the recorded toolchain reads as a configuration with which nothing is wrong.
/// `default` is the address of the public registry in normal form.
pub proof fn a_written_scaffold_passes_the_check(
    lockfile_path: Seq<char>,
    detected: bool,
    sa: Option<YamlModel>,
    host_os: Os,
    host_cpu: Cpu,
    platforms: Table<PlatformModel>,
    existing: Option<Seq<char>>,
    block: Seq<char>,
    force: bool,
    default: Seq<char>,
    reading: Result<RawConfig, String>,
    path: Seq<char>,
    r: Result<Config, ConfigError>,
)
    requires
        is_unescaped(lockfile_path),
        expansion(sa, host_os, host_cpu) is Ok,
        !(host_os is Win32),
        keys_increase(platforms),
        as_map(platforms) == put_all(Map::empty(), expansion(sa, host_os, host_cpu)->Ok_0.0),
        url_text("https://registry.npmjs.org"@) == Some(default),
        default == "https://registry.npmjs.org/"@,
        file_config(
            config_text(
                lockfile_path,
                "third-party/js"@,
                toolchain_text(applied(existing, block, force).1),
                platforms,
                detected,
            ),
            reading,
            path,
            r,
        ),
    ensures
        r is Ok,
        config_errors(r->Ok_0) == Seq::<ConfigErrorModel>::empty(),
{
    let toolchain = toolchain_text(applied(existing, block, force).1);
    let list = expansion(sa, host_os, host_cpu)->Ok_0.0;
    let none = Map::<Seq<char>, PlatformModel>::empty();
    reveal_strlit("third-party/js");
    reveal_strlit("https://registry.npmjs.org/");
    reveal_strlit("https://");
    toolchain_is_unescaped(existing, block, force);
    assert forall|i: int| 0 <= i < platforms.len() implies is_bare((#[trigger] platforms[i]).0)
        && platforms[i].1.constraints is None by {
        let (name, p) = platforms[i];
        key_index_is(platforms, i);
        assert(as_map(platforms)[name] == p);
        put_all_members(none, list, name);
        let j = list.index_of((name, p));
        assert(list[j] == (name, p));
        derived_platforms_are_sound(sa, host_os, host_cpu, j);
        platform_name_is_bare(p.os, p.cpu, p.libc);
    }
    a_starter_config_reads_back(
        lockfile_path,
        "third-party/js"@,
        toolchain,
        platforms,
        detected,
        default,
        reading,
        path,
        r,
    );
    a_scaffold_passes_the_check(r->Ok_0, sa, host_os, host_cpu, existing, block, force);
}

} // verus!
