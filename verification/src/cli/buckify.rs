//! What `pudu buckify` writes.
//!
//! The packages that get a target are those that `pudu vendor` fetches, so the table
//! must be up to date before anything is rendered. Each instance of a package gets a
//! target of its own, with what the table records of the package.

use vstd::prelude::*;

use crate::buck::store::{
    built_targets_are_distinct, copy_map, only_reachable_packages_are_copied, TreeModel,
};
use crate::buck::{generate, generated_files, trees_hold, trees_of, Generated};
use crate::cli::vendor::{
    check_table, package_key, plan_after, plan_covers_survivors, plan_holds, Plan, Prepared,
};
use crate::config::{Platform, PlatformModel, RegistryModel};
use crate::dict::{
    has_key, key_index, keys_increase, lookup, names_increase, Dict, Duplicate, NameSet,
};
use crate::error::{Failure, VendorErrorModel};
use crate::lock::graph::{graph_of, Graph, GraphModel, NodeModel};
use crate::lock::snapshot_key::target_text;
use crate::lock::types::{LockfileModel, Table};
use crate::packages::{
    differences, no_difference_means_recorded, recorded, Entry, EntryModel, Loaded,
};
use crate::platform::prune::{matrix_of, survivors_are_nodes, survivors_increase, table_keys};
use crate::text::{decimal, decimal_text, text_lt, text_lt_irreflexive};

verus! {

/// The packages that survive somewhere.
fn surviving(by_node: &Dict<NameSet>) -> (r: NameSet)
    ensures
        r.deep_view() == table_keys(by_node.deep_view()),
{
    let ghost table = by_node.deep_view();
    let mut out = NameSet::new();
    let mut i: usize = 0;
    proof {
        use_type_invariant(by_node);
        assert(out.deep_view() =~= table_keys(table).take(0));
    }
    while i < by_node.len()
        invariant
            by_node.sorted(),
            table == by_node.deep_view(),
            i <= table.len(),
            out.deep_view() == table_keys(table).take(i as int),
        decreases table.len() - i,
    {
        let key = by_node.key(i);
        proof {
            assert forall|k: int| 0 <= k < out.deep_view().len() implies text_lt(
                #[trigger] out.deep_view()[k],
                key@,
            ) by {
                assert(text_lt(by_node@[k].0@, by_node@[i as int].0@));
            }
            assert(table_keys(table).take(i + 1) =~= out.deep_view().push(key@));
        }
        out.insert(key.clone());
        i += 1;
    }
    assert(table_keys(table).take(i as int) =~= table_keys(table));
    out
}

/// What is recorded of the package of each of the first `n` instances, under the
/// instance's key.
pub open spec fn instances_of(
    nodes: Table<NodeModel>,
    keys: Seq<Seq<char>>,
    entries: Table<EntryModel>,
    n: int,
) -> Table<EntryModel>
    decreases n,
{
    if n <= 0 {
        Seq::empty()
    } else {
        let before = instances_of(nodes, keys, entries, n - 1);
        match lookup(nodes, keys[n - 1]) {
            Some(node) => match lookup(entries, package_key(node)) {
                Some(e) => before.push((keys[n - 1], e)),
                None => before,
            },
            None => before,
        }
    }
}

proof fn instances_come_before(
    nodes: Table<NodeModel>,
    keys: Seq<Seq<char>>,
    entries: Table<EntryModel>,
    n: int,
    k: Seq<char>,
)
    requires
        0 <= n <= keys.len(),
        forall|i: int| 0 <= i < n ==> text_lt(#[trigger] keys[i], k),
    ensures
        forall|i: int|
            0 <= i < instances_of(nodes, keys, entries, n).len() ==> text_lt(
                (#[trigger] instances_of(nodes, keys, entries, n)[i]).0,
                k,
            ),
    decreases n,
{
    if n > 0 {
        instances_come_before(nodes, keys, entries, n - 1, k);
        let before = instances_of(nodes, keys, entries, n - 1);
        let now = instances_of(nodes, keys, entries, n);
        assert forall|i: int| 0 <= i < now.len() implies text_lt((#[trigger] now[i]).0, k) by {
            if i < before.len() {
                assert(now[i] == before[i]);
            } else {
                assert(text_lt(keys[n - 1], k));
            }
        }
    }
}

/// Puts what is recorded of a package under the key of each of its instances.
fn instances(graph: &Graph, keys: &NameSet, entries: &Dict<Entry>) -> (r: Dict<Entry>)
    ensures
        r.deep_view() == instances_of(
            graph.deep_view().nodes,
            keys.deep_view(),
            entries.deep_view(),
            keys.deep_view().len() as int,
        ),
{
    let ghost nodes = graph.deep_view().nodes;
    let ghost ks = keys.deep_view();
    let ghost es = entries.deep_view();
    let mut out: Dict<Entry> = Dict::new();
    let mut i: usize = 0;
    proof {
        use_type_invariant(keys);
        assert(out.deep_view() =~= instances_of(nodes, ks, es, 0));
    }
    while i < keys.len()
        invariant
            keys.sorted(),
            nodes == graph.deep_view().nodes,
            ks == keys.deep_view(),
            es == entries.deep_view(),
            i <= ks.len(),
            out.deep_view() == instances_of(nodes, ks, es, i as int),
        decreases ks.len() - i,
    {
        let key = keys.name(i);
        assert(ks[i as int] == key@);
        proof {
            assert forall|k: int| 0 <= k < i implies text_lt(#[trigger] ks[k], key@) by {
                assert(text_lt(keys@[k]@, keys@[i as int]@));
            }
            instances_come_before(nodes, ks, es, i as int, key@);
        }
        if let Some(node) = graph.nodes.get(key) {
            let mut package = node.name.clone();
            package.append("@");
            package.append(node.version.as_str());
            assert(package@ == package_key(node.deep_view()));
            if let Some(e) = entries.get(package.as_str()) {
                out.insert(key.clone(), e.duplicate());
            }
        }
        i += 1;
    }
    out
}

/// Renders the files for a lockfile whose packages are all recorded: a target for each
/// surviving instance, and a tree for each importer.
pub fn produce(
    prepared: &Prepared,
    loaded: &Loaded,
    platforms: &Dict<Platform>,
    third_party_dir: &str,
) -> (r: Result<Generated, Failure>)
    ensures
        ({
            let expected = prepared.plan.expected.deep_view();
            let found = differences(expected, recorded(*loaded), expected.len() as int);
            let keys = table_keys(prepared.matrix.platforms_by_node.deep_view());
            let entries = instances_of(
                prepared.graph.deep_view().nodes,
                keys,
                recorded(*loaded),
                keys.len() as int,
            );
            if found.len() > 0 {
                r is Err && r->Err_0 is Vendor && r->Err_0->Vendor_0.deep_view() == (
                VendorErrorModel::Stale { differences: found })
            } else {
                exists|trees: Table<TreeModel>|
                    {
                        &&& #[trigger] trees_hold(
                            trees,
                            prepared.graph.deep_view(),
                            keys,
                            entries,
                        )
                        &&& match (
                            generated_files(
                                entries,
                                trees,
                                platforms.deep_view(),
                                third_party_dir@,
                            ),
                            r,
                        ) {
                            (Ok(files), Ok(g)) => g.deep_view() == files,
                            (Err(m), Err(e)) => e is Buck && e->Buck_0.deep_view() == m,
                            _ => false,
                        }
                    }
            }
        }),
{
    if let Err(e) = check_table(&prepared.plan, loaded) {
        return Err(Failure::Vendor(e));
    }
    let none: Dict<Entry> = Dict::new();
    let table = match loaded {
        Loaded::Present(table) => &table.entries,
        _ => &none,
    };
    assert(table.deep_view() =~= recorded(*loaded));
    let keys = surviving(&prepared.matrix.platforms_by_node);
    let entries = instances(&prepared.graph, &keys, table);
    let trees = trees_of(&prepared.graph, &keys, &entries);
    match generate(&entries, &trees, platforms, third_party_dir) {
        Ok(files) => Ok(files),
        Err(e) => Err(Failure::Buck(e)),
    }
}

/// Says that the rendered files are up to date.
pub fn up_to_date_line(packages: usize) -> (r: String)
    ensures
        r@ == "generated files are up to date ("@ + decimal_text(packages as nat) + " packages)"@,
{
    let mut out = "generated files are up to date (".to_owned();
    out.append(decimal(packages as u64).as_str());
    out.append(" packages)");
    out
}

/// Says what was written.
pub fn wrote_line(packages: usize) -> (r: String)
    ensures
        r@ == "wrote BUCK, pudu.bzl and config/BUCK ("@ + decimal_text(packages as nat)
            + " packages)"@,
{
    let mut out = "wrote BUCK, pudu.bzl and config/BUCK (".to_owned();
    out.append(decimal(packages as u64).as_str());
    out.append(" packages)");
    out
}

// --- Laws -----------------------------------------------------------------------

proof fn instance_is_declared(
    nodes: Table<NodeModel>,
    keys: Seq<Seq<char>>,
    entries: Table<EntryModel>,
    n: int,
    i: int,
)
    requires
        0 <= i < n <= keys.len(),
        lookup(nodes, keys[i]) is Some,
        lookup(entries, package_key(lookup(nodes, keys[i])->Some_0)) is Some,
    ensures
        has_key(instances_of(nodes, keys, entries, n), keys[i]),
    decreases n,
{
    let now = instances_of(nodes, keys, entries, n);
    let before = instances_of(nodes, keys, entries, n - 1);
    if i < n - 1 {
        instance_is_declared(nodes, keys, entries, n - 1, i);
        let p = key_index(before, keys[i]);
        assert(now[p] == before[p]);
    } else {
        assert(now[before.len() as int].0 == keys[i]);
    }
}

proof fn declared_is_a_node(
    nodes: Table<NodeModel>,
    keys: Seq<Seq<char>>,
    entries: Table<EntryModel>,
    n: int,
    i: int,
)
    requires
        0 <= n <= keys.len(),
        0 <= i < instances_of(nodes, keys, entries, n).len(),
    ensures
        has_key(nodes, instances_of(nodes, keys, entries, n)[i].0),
    decreases n,
{
    if n > 0 {
        let before = instances_of(nodes, keys, entries, n - 1);
        if i < before.len() {
            declared_is_a_node(nodes, keys, entries, n - 1, i);
        }
    }
}

/// Every package that a tree copies is declared: where the table records what the plan
/// expects, each label in a tree's copies names a target of the same file.
pub proof fn copied_packages_are_declared(
    g: GraphModel,
    platforms: Table<PlatformModel>,
    registry: RegistryModel,
    plan: Plan,
    entries: Table<EntryModel>,
    importer: Seq<char>,
    dest: Seq<char>,
)
    requires
        keys_increase(g.nodes),
        ({
            let by_node = matrix_of(g.nodes, platforms).platforms_by_node;
            let planned = plan_after(g.nodes, by_node, registry, by_node.len() as int);
            &&& planned is Ok
            &&& planned->Ok_0.unsupported.is_empty()
            &&& plan_holds(plan, planned->Ok_0.items)
            &&& differences(
                plan.expected.deep_view(),
                entries,
                plan.expected.deep_view().len() as int,
            ).len() == 0
            &&& copy_map(g, table_keys(by_node), importer).contains_key(dest)
        }),
    ensures
        ({
            let keys = table_keys(matrix_of(g.nodes, platforms).platforms_by_node);
            has_key(
                instances_of(g.nodes, keys, entries, keys.len() as int),
                copy_map(g, keys, importer)[dest],
            )
        }),
{
    let by_node = matrix_of(g.nodes, platforms).platforms_by_node;
    let keys = table_keys(by_node);
    let k = copy_map(g, keys, importer)[dest];
    let expected = plan.expected.deep_view();
    survivors_increase(g.nodes, platforms, g.nodes.len() as int);
    only_reachable_packages_are_copied(g, keys, importer, dest);
    let i = keys.index_of(k);
    assert(by_node[i].0 == k);
    survivors_are_nodes(g.nodes, platforms, i);
    plan_covers_survivors(g.nodes, by_node, registry, by_node.len() as int, i);
    let package = package_key(lookup(g.nodes, k)->Some_0);
    assert(lookup(plan.requests.deep_view(), package) is Some);
    assert(lookup(expected, package) is Some);
    let p = key_index(expected, package);
    assert(expected[p].0 == package);
    no_difference_means_recorded(expected, entries, expected.len() as int, p);
    instance_is_declared(g.nodes, keys, entries, keys.len() as int, i);
}

/// Each instance gets a target of its own: no two that are declared share a name.
pub proof fn declared_targets_are_distinct(
    lock: LockfileModel,
    keys: Seq<Seq<char>>,
    entries: Table<EntryModel>,
    i: int,
    j: int,
)
    requires
        graph_of(lock) is Ok,
        names_increase(keys),
        ({
            let all = instances_of(graph_of(lock)->Ok_0.nodes, keys, entries, keys.len() as int);
            0 <= i < j < all.len()
        }),
    ensures
        ({
            let all = instances_of(graph_of(lock)->Ok_0.nodes, keys, entries, keys.len() as int);
            target_text(all[i].0) != target_text(all[j].0)
        }),
{
    let nodes = graph_of(lock)->Ok_0.nodes;
    let n = keys.len() as int;
    let all = instances_of(nodes, keys, entries, n);
    declared_is_a_node(nodes, keys, entries, n, i);
    declared_is_a_node(nodes, keys, entries, n, j);
    instances_increase(nodes, keys, entries, n);
    assert(text_lt(all[i].0, all[j].0));
    text_lt_irreflexive(all[i].0);
    built_targets_are_distinct(lock);
}

proof fn instances_increase(
    nodes: Table<NodeModel>,
    keys: Seq<Seq<char>>,
    entries: Table<EntryModel>,
    n: int,
)
    requires
        names_increase(keys),
        0 <= n <= keys.len(),
    ensures
        keys_increase(instances_of(nodes, keys, entries, n)),
    decreases n,
{
    if n > 0 {
        let before = instances_of(nodes, keys, entries, n - 1);
        let now = instances_of(nodes, keys, entries, n);
        instances_increase(nodes, keys, entries, n - 1);
        assert forall|i: int| 0 <= i < n - 1 implies text_lt(#[trigger] keys[i], keys[n - 1]) by {
            assert(text_lt(keys[i], keys[n - 1]));
        }
        instances_come_before(nodes, keys, entries, n - 1, keys[n - 1]);
        assert forall|i: int, j: int| 0 <= i < j < now.len() implies text_lt(
            (#[trigger] now[i]).0,
            (#[trigger] now[j]).0,
        ) by {
            assert(now[i] == before[i]);
            if j < before.len() {
                assert(now[j] == before[j]);
            }
        }
    }
}

/// An instance is declared exactly where its package is recorded, with what is recorded
/// under the package's name and version, whichever peers the instance has.
pub proof fn instances_carry_their_packages(
    nodes: Table<NodeModel>,
    keys: Seq<Seq<char>>,
    entries: Table<EntryModel>,
    n: int,
    key: Seq<char>,
    entry: EntryModel,
)
    requires
        0 <= n <= keys.len(),
    ensures
        instances_of(nodes, keys, entries, n).contains((key, entry)) <==> {
            let node = lookup(nodes, key);
            &&& keys.take(n).contains(key)
            &&& node is Some
            &&& lookup(entries, node->Some_0.name + seq!['@'] + node->Some_0.version) == Some(entry)
        },
    decreases n,
{
    reveal_strlit("@");
    if n > 0 {
        let before = instances_of(nodes, keys, entries, n - 1);
        let now = instances_of(nodes, keys, entries, n);
        assert("@"@ =~= seq!['@']);
        instances_carry_their_packages(nodes, keys, entries, n - 1, key, entry);
        assert(keys.take(n) =~= keys.take(n - 1).push(keys[n - 1]));
        if keys.take(n - 1).contains(key) {
            let p = keys.take(n - 1).index_of(key);
            assert(keys.take(n)[p] == key);
        }
        if keys[n - 1] == key {
            assert(keys.take(n)[n - 1] == key);
        }
        if before.contains((key, entry)) {
            let p = before.index_of((key, entry));
            assert(now[p] == (key, entry));
        }
        if now.len() > before.len() {
            assert(now[now.len() - 1].0 == keys[n - 1]);
        }
    }
}

} // verus!
