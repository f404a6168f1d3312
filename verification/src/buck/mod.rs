//! Rendering the generated Buck2 files.
//!
//! Every renderer returns a `String` and touches no filesystem, so checking what
//! is on disk and writing it share all rendering.

pub mod bzl;
pub mod config;
pub mod emit;
pub mod format;
pub mod store;

use vstd::prelude::*;

use crate::buck::bzl::{
    PACKAGE_MACRO, TREE_BUILDER, TREE_LIST, TREE_RULE, TREE_RULE_REST,
};
use crate::buck::config::settings_text;
use crate::buck::emit::{
    a_file_loads_its_macros, only_unusable_names_are_refused, render_result,
};
use crate::buck::store::{build, copies_of, links_of, Tree, TreeModel};
use crate::config::{Platform, PlatformModel};
use crate::dict::{
    as_map, has_key, increases_when_sorted, increasing_tables_agree, keys_increase, lookup,
    lookup_is_map, put_all, Dict, NameSet,
};
use crate::error::{BuckError, BuckErrorModel};
use crate::lock::graph::{Graph, GraphModel};
use crate::lock::types::Table;
use crate::packages::{Entry, EntryModel};
use crate::paths::{is_plain_path, join_path, joined, plain_path};
use crate::text::same;

verus! {

/// The banner that every rendered file opens with.
pub const HEADER: &'static str = "##\n## @generated by pudu\n## Do not edit by hand.\n##\n";

/// The package path of the third-party directory in labels. Only a normalized
/// relative path can be one.
pub fn third_party_label(dir: &str) -> (r: Result<String, BuckError>)
    ensures
        match r {
            Ok(label) => is_plain_path(dir@) && label@ == dir@,
            Err(e) => !is_plain_path(dir@) && e.deep_view()
                == (BuckErrorModel::UnusableThirdPartyDir { path: dir@ }),
        },
{
    if plain_path(dir) {
        Ok(dir.to_owned())
    } else {
        Err(BuckError::UnusableThirdPartyDir { path: dir.to_owned() })
    }
}

/// These are the trees of a graph: one per importer that asks for anything, each
/// with what it copies and links.
pub open spec fn trees_hold(
    trees: Table<TreeModel>,
    graph: GraphModel,
    nodes: Seq<Seq<char>>,
    entries: Table<EntryModel>,
) -> bool {
    &&& keys_increase(trees)
    &&& forall|importer: Seq<char>|
        #[trigger] has_key(trees, importer) <==> exists|i: int|
            0 <= i < graph.roots.len() && (#[trigger] graph.roots[i]).importer == importer
    &&& forall|importer: Seq<char>|
        #[trigger] has_key(trees, importer) ==> {
            let tree = lookup(trees, importer)->Some_0;
            &&& keys_increase(tree.copies)
            &&& keys_increase(tree.links)
            &&& as_map(tree.copies) == put_all(Map::empty(), copies_of(graph, nodes, importer))
            &&& as_map(tree.links) == put_all(
                Map::empty(),
                links_of(graph, nodes, entries, importer),
            )
        }
}

/// One tree per importer that asks for anything.
pub fn trees_of(graph: &Graph, nodes: &NameSet, entries: &Dict<Entry>) -> (r: Dict<Tree>)
    ensures
        trees_hold(r.deep_view(), graph.deep_view(), nodes.deep_view(), entries.deep_view()),
{
    let ghost g = graph.deep_view();
    let ghost ns = nodes.deep_view();
    let ghost es = entries.deep_view();
    let mut out: Dict<Tree> = Dict::new();
    let mut i: usize = 0;
    while i < graph.roots.len()
        invariant
            g == graph.deep_view(),
            ns == nodes.deep_view(),
            es == entries.deep_view(),
            i <= g.roots.len(),
            forall|importer: Seq<char>|
                #[trigger] has_key(out.deep_view(), importer) <==> exists|k: int|
                    0 <= k < i && (#[trigger] g.roots[k]).importer == importer,
            forall|importer: Seq<char>|
                #[trigger] has_key(out.deep_view(), importer) ==> {
                    let tree = lookup(out.deep_view(), importer)->Some_0;
                    &&& keys_increase(tree.copies)
                    &&& keys_increase(tree.links)
                    &&& as_map(tree.copies) == put_all(Map::empty(), copies_of(g, ns, importer))
                    &&& as_map(tree.links) == put_all(Map::empty(), links_of(g, ns, es, importer))
                },
        decreases g.roots.len() - i,
    {
        let importer = &graph.roots[i].importer;
        assert(g.roots[i as int].importer == importer@);
        let ghost before = out.deep_view();
        if !out.contains_key(importer) {
            let tree = build(graph, nodes, entries, importer);
            let ghost model = tree.deep_view();
            proof {
                use_type_invariant(&tree.copies);
                use_type_invariant(&tree.links);
                increases_when_sorted(tree.copies);
                increases_when_sorted(tree.links);
            }
            out.insert(importer.clone(), tree);
            proof {
                let after = out.deep_view();
                assert forall|k: Seq<char>| #[trigger] has_key(after, k) <==> has_key(before, k) || k == importer@ by {
                    lookup_is_map(before, k);
                    lookup_is_map(after, k);
                }
                assert forall|k: Seq<char>| #[trigger] has_key(after, k) implies {
                    let tree = lookup(after, k)->Some_0;
                    &&& keys_increase(tree.copies)
                    &&& keys_increase(tree.links)
                    &&& as_map(tree.copies) == put_all(Map::empty(), copies_of(g, ns, k))
                    &&& as_map(tree.links) == put_all(Map::empty(), links_of(g, ns, es, k))
                } by {
                    lookup_is_map(before, k);
                    lookup_is_map(after, k);
                    if k != importer@ {
                        assert(has_key(before, k));
                    }
                }
            }
        }
        i += 1;
    }
    proof {
        use_type_invariant(&out);
        increases_when_sorted(out);
    }
    out
}

/// The files that are rendered, below the third-party directory.
#[derive(Debug, PartialEq, Eq)]
pub struct Generated {
    /// `BUCK`.
    pub buck: String,
    /// `pudu.bzl`.
    pub bzl: String,
    /// `config/BUCK`.
    pub config: String,
}

/// The mathematical value of a [`Generated`].
pub struct GeneratedModel {
    pub buck: Seq<char>,
    pub bzl: Seq<char>,
    pub config: Seq<char>,
}

impl DeepView for Generated {
    type V = GeneratedModel;

    open spec fn deep_view(&self) -> GeneratedModel {
        GeneratedModel { buck: self.buck@, bzl: self.bzl@, config: self.config@ }
    }
}

/// The files for these packages and trees, or why they cannot be rendered.
pub open spec fn generated_files(
    entries: Table<EntryModel>,
    trees: Table<TreeModel>,
    platforms: Table<PlatformModel>,
    third_party_dir: Seq<char>,
) -> Result<GeneratedModel, BuckErrorModel> {
    if !is_plain_path(third_party_dir) {
        Err(BuckErrorModel::UnusableThirdPartyDir { path: third_party_dir })
    } else {
        match render_result(entries, trees, third_party_dir) {
            Ok(buck) => Ok(
                GeneratedModel {
                    buck,
                    bzl: HEADER@ + PACKAGE_MACRO@ + TREE_BUILDER@ + TREE_RULE@ + TREE_LIST@
                        + TREE_RULE_REST@,
                    config: HEADER@ + settings_text(platforms, platforms.len() as int),
                },
            ),
            Err(e) => Err(e),
        }
    }
}

/// Renders all files.
pub fn generate(
    entries: &Dict<Entry>,
    trees: &Dict<Tree>,
    platforms: &Dict<Platform>,
    third_party_dir: &str,
) -> (r: Result<Generated, BuckError>)
    ensures
        match (
            generated_files(
                entries.deep_view(),
                trees.deep_view(),
                platforms.deep_view(),
                third_party_dir@,
            ),
            r,
        ) {
            (Ok(files), Ok(g)) => g.deep_view() == files,
            (Err(m), Err(e)) => e.deep_view() == m,
            _ => false,
        },
{
    let label = match third_party_label(third_party_dir) {
        Ok(label) => label,
        Err(e) => {
            return Err(e);
        },
    };
    match emit::render(entries, trees, label.as_str()) {
        Ok(buck) => Ok(Generated { buck, bzl: bzl::render(), config: config::render(platforms) }),
        Err(e) => Err(e),
    }
}

/// What stands in the place of the rendered files.
#[derive(Debug, PartialEq, Eq)]
pub struct OnDisk {
    pub buck: Option<String>,
    pub bzl: Option<String>,
    pub config: Option<String>,
}

/// A file holds exactly this text.
pub open spec fn holds(found: Option<String>, want: String) -> bool {
    found is Some && found->Some_0@ == want@
}

fn is_current(found: &Option<String>, want: &String) -> (r: bool)
    ensures
        r == holds(*found, *want),
{
    match found {
        Some(text) => same(text.as_str(), want.as_str()),
        None => false,
    }
}

/// The names of the files that are missing or hold something else.
pub open spec fn stale_names(files: Generated, disk: OnDisk) -> Seq<Seq<char>> {
    (if holds(disk.buck, files.buck) {
        Seq::empty()
    } else {
        seq!["BUCK"@]
    }) + (if holds(disk.bzl, files.bzl) {
        Seq::empty()
    } else {
        seq!["pudu.bzl"@]
    }) + (if holds(disk.config, files.config) {
        Seq::empty()
    } else {
        seq!["config/BUCK"@]
    })
}

impl Generated {
    /// The names of the files that are missing or hold something else.
    pub fn stale(&self, disk: &OnDisk) -> (r: Vec<String>)
        ensures
            r.deep_view() == stale_names(*self, *disk),
    {
        let mut out: Vec<String> = Vec::new();
        if !is_current(&disk.buck, &self.buck) {
            out.push("BUCK".to_owned());
        }
        if !is_current(&disk.bzl, &self.bzl) {
            out.push("pudu.bzl".to_owned());
        }
        if !is_current(&disk.config, &self.config) {
            out.push("config/BUCK".to_owned());
        }
        assert(out.deep_view() =~= stale_names(*self, *disk));
        out
    }

    /// Compares with what stands below `dir`: every file is current, or some are out
    /// of date, each named by its path.
    pub fn check(&self, disk: &OnDisk, dir: &str) -> (r: Result<(), BuckError>)
        ensures
            match r {
                Ok(_) => stale_names(*self, *disk).len() == 0,
                Err(e) => stale_names(*self, *disk).len() > 0 && e.deep_view() == (
                BuckErrorModel::Stale {
                    files: stale_names(*self, *disk).map_values(
                        |name: Seq<char>| joined(dir@, name),
                    ),
                }),
            },
    {
        let names = self.stale(disk);
        if names.len() == 0 {
            return Ok(());
        }
        let ghost want = stale_names(*self, *disk).map_values(
            |name: Seq<char>| joined(dir@, name),
        );
        let mut files: Vec<String> = Vec::new();
        let mut i: usize = 0;
        assert(files.deep_view() =~= want.take(0));
        while i < names.len()
            invariant
                names.deep_view() == stale_names(*self, *disk),
                want == stale_names(*self, *disk).map_values(
                    |name: Seq<char>| joined(dir@, name),
                ),
                i <= names.len(),
                files.deep_view() == want.take(i as int),
            decreases names.len() - i,
        {
            let ghost prior = files.deep_view();
            assert(names.deep_view()[i as int] == names@[i as int]@);
            files.push(join_path(dir, names[i].as_str()));
            i += 1;
            assert(files.deep_view() =~= prior.push(want[i - 1]));
            assert(want.take(i as int) =~= prior.push(want[i - 1]));
        }
        assert(want.take(i as int) =~= want);
        Err(BuckError::Stale { files })
    }
}

/// The trees of a graph are determined: the same lockfile, platforms and package table
/// always render to the same files.
pub proof fn rendering_is_determined(
    a: Table<TreeModel>,
    b: Table<TreeModel>,
    graph: GraphModel,
    nodes: Seq<Seq<char>>,
    entries: Table<EntryModel>,
)
    requires
        trees_hold(a, graph, nodes, entries),
        trees_hold(b, graph, nodes, entries),
    ensures
        a == b,
{
    assert forall|k: Seq<char>| as_map(a).contains_key(k) == as_map(b).contains_key(k) by {
        assert(has_key(a, k) == has_key(b, k));
    }
    assert forall|k: Seq<char>| as_map(a).contains_key(k) implies as_map(a)[k] == as_map(b)[k] by {
        assert(has_key(a, k) && has_key(b, k));
        let x = lookup(a, k)->Some_0;
        let y = lookup(b, k)->Some_0;
        increasing_tables_agree(x.copies, y.copies);
        increasing_tables_agree(x.links, y.links);
    }
    assert(as_map(a) =~= as_map(b));
    increasing_tables_agree(a, b);
}

/// A file is out of date exactly where it is missing or differs from what is rendered, and
/// nothing else is named.
pub proof fn what_is_stale_differs(files: Generated, disk: OnDisk, name: Seq<char>)
    ensures
        stale_names(files, disk).contains(name) <==> {
            ||| name == "BUCK"@ && !(disk.buck is Some && disk.buck->Some_0@ == files.buck@)
            ||| name == "pudu.bzl"@ && !(disk.bzl is Some && disk.bzl->Some_0@ == files.bzl@)
            ||| name == "config/BUCK"@ && !(disk.config is Some && disk.config->Some_0@
                == files.config@)
        },
        stale_names(files, disk).len() == 0 <==> disk.buck is Some && disk.buck->Some_0@
            == files.buck@ && disk.bzl is Some && disk.bzl->Some_0@ == files.bzl@
            && disk.config is Some && disk.config->Some_0@ == files.config@,
{
    let stale = stale_names(files, disk);
    let a: int = if holds(disk.buck, files.buck) { 0 } else { 1 };
    let b: int = if holds(disk.bzl, files.bzl) { 0 } else { 1 };
    if a == 1 {
        assert(stale[0] == "BUCK"@);
    }
    if b == 1 {
        assert(stale[a] == "pudu.bzl"@);
    }
    if !holds(disk.config, files.config) {
        assert(stale[a + b] == "config/BUCK"@);
    }
    if stale.contains(name) {
        let i = stale.index_of(name);
        assert(stale[i] == name);
    }
}

/// Files are rendered exactly where the directory can stand in a label and every name can
/// be used. All three then open with the banner, and the settings of the platforms stand
/// behind it in theirs.
pub proof fn every_file_is_marked_as_generated(
    entries: Table<EntryModel>,
    trees: Table<TreeModel>,
    platforms: Table<PlatformModel>,
    dir: Seq<char>,
)
    ensures
        generated_files(entries, trees, platforms, dir) is Ok <==> is_plain_path(dir)
            && render_result(entries, trees, dir) is Ok,
        match generated_files(entries, trees, platforms, dir) {
            Ok(files) => {
                &&& render_result(entries, trees, dir) == Ok::<Seq<char>, BuckErrorModel>(files.buck)
                &&& HEADER@.is_prefix_of(files.buck)
                &&& HEADER@.is_prefix_of(files.bzl)
                &&& HEADER@.is_prefix_of(files.config)
                &&& files.config.skip(HEADER@.len() as int) == settings_text(
                    platforms,
                    platforms.len() as int,
                )
            },
            Err(BuckErrorModel::UnusableThirdPartyDir { path }) => path == dir && !is_plain_path(
                dir,
            ),
            Err(e) => render_result(entries, trees, dir) == Err::<Seq<char>, BuckErrorModel>(e),
        },
{
    if let Ok(files) = generated_files(entries, trees, platforms, dir) {
        a_file_loads_its_macros(entries, trees, dir);
        assert(files.bzl.take(HEADER@.len() as int) =~= HEADER@);
        assert(files.config.take(HEADER@.len() as int) =~= HEADER@);
        assert(files.config.skip(HEADER@.len() as int) =~= settings_text(
            platforms,
            platforms.len() as int,
        ));
    }
    if render_result(entries, trees, dir) is Err {
        only_unusable_names_are_refused(entries, trees, dir);
    }
}

} // verus!
