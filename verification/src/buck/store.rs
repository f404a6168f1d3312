//! The pnpm store layout, as two flat maps.
//!
//! The instance graph goes in, and what comes out describes a directory tree:
//! which packages are materialized where, and which relative symlinks join them.
//!
//! Every symlink target is relative, and its `../` count is derived from the
//! link's own path. A scoped package occupies two path segments, so a link
//! naming one sits a directory deeper than a link naming an unscoped package and
//! must climb one level further.
//!
//! Only nodes reachable from the importer's own roots are materialized.

use vstd::prelude::*;

use crate::dict::{
    as_map, has_key, increasing_fits, increasing_is_unique, key_index, keys_increase, lookup,
    names_increase, put_all, put_all_concat, put_all_last, put_all_leaves, put_all_members,
    put_all_push, Dict, NameSet,
};
use crate::lock::graph::{
    graph_of, target_names_are_unique, EdgeModel, Graph, GraphModel, Node, NodeModel,
};
use crate::lock::snapshot_key::{
    target_name, target_name_has_no_slash, target_name_is_a_name, target_text,
};
use crate::lock::types::{LockfileModel, Table};
use crate::packages::{Entry, EntryModel};
use crate::paths::{follow, follow_concat, follow_plain, follow_up, is_entry, is_plain_path, ups};
use crate::text::{
    chars_of, join_split, join_with, same, split_joined, split_not_empty, split_on, split_plain,
    text_lt, text_lt_irreflexive,
};

verus! {

/// One importer's store layout.
#[derive(Debug, PartialEq)]
pub struct Tree {
    /// Destination path in the tree to the snapshot key of the package that goes
    /// there.
    pub copies: Dict<String>,
    /// Destination path in the tree to relative symlink target.
    pub links: Dict<String>,
}

/// The mathematical value of a [`Tree`].
pub struct TreeModel {
    pub copies: Table<Seq<char>>,
    pub links: Table<Seq<char>>,
}

impl DeepView for Tree {
    type V = TreeModel;

    open spec fn deep_view(&self) -> TreeModel {
        TreeModel { copies: self.copies.deep_view(), links: self.links.deep_view() }
    }
}

// --- Which packages are reachable ---------------------------------------------

/// An importer asks for this package, and it survives.
pub open spec fn is_start(
    g: GraphModel,
    nodes: Seq<Seq<char>>,
    importer: Seq<char>,
    k: Seq<char>,
) -> bool {
    &&& nodes.contains(k)
    &&& exists|j: int|
        0 <= j < g.roots.len() && (#[trigger] g.roots[j]).importer == importer && g.roots[j].target
            == Some(k)
}

/// One package depends on another, which survives.
pub open spec fn is_step(g: GraphModel, nodes: Seq<Seq<char>>, a: Seq<char>, b: Seq<char>) -> bool {
    &&& nodes.contains(b)
    &&& lookup(g.nodes, a) is Some
    &&& exists|j: int|
        0 <= j < lookup(g.nodes, a)->Some_0.edges.len() && (
        #[trigger] lookup(g.nodes, a)->Some_0.edges[j]).target == b
}

/// A chain of dependencies from one of the importer's roots.
pub open spec fn is_walk(
    g: GraphModel,
    nodes: Seq<Seq<char>>,
    importer: Seq<char>,
    path: Seq<Seq<char>>,
) -> bool {
    &&& path.len() > 0
    &&& is_start(g, nodes, importer, path[0])
    &&& forall|i: int|
        0 <= i && i + 1 < path.len() ==> is_step(g, nodes, #[trigger] path[i], path[i + 1])
}

/// A chain of dependencies leads from one of the importer's roots to `k`.
pub open spec fn reaches(
    g: GraphModel,
    nodes: Seq<Seq<char>>,
    importer: Seq<char>,
    k: Seq<char>,
) -> bool {
    exists|path: Seq<Seq<char>>| #[trigger] is_walk(g, nodes, importer, path) && path.last() == k
}

/// `list` holds exactly what can be reached, in order.
pub open spec fn is_reach_list(
    g: GraphModel,
    nodes: Seq<Seq<char>>,
    importer: Seq<char>,
    list: Seq<Seq<char>>,
) -> bool {
    &&& names_increase(list)
    &&& forall|k: Seq<char>| #[trigger] list.contains(k) <==> reaches(g, nodes, importer, k)
}

/// Those of the first `n` surviving packages that can be reached.
pub open spec fn reached_among(
    g: GraphModel,
    nodes: Seq<Seq<char>>,
    importer: Seq<char>,
    n: int,
) -> Seq<Seq<char>>
    decreases n,
{
    if n <= 0 {
        Seq::empty()
    } else if reaches(g, nodes, importer, nodes[n - 1]) {
        reached_among(g, nodes, importer, n - 1).push(nodes[n - 1])
    } else {
        reached_among(g, nodes, importer, n - 1)
    }
}

/// What can be reached from the importer's roots, in order.
pub open spec fn reach_list(g: GraphModel, nodes: Seq<Seq<char>>, importer: Seq<char>) -> Seq<
    Seq<char>,
> {
    reached_among(g, nodes, importer, nodes.len() as int)
}

proof fn reached_among_is(g: GraphModel, nodes: Seq<Seq<char>>, importer: Seq<char>, n: int)
    requires
        names_increase(nodes),
        0 <= n <= nodes.len(),
    ensures
        names_increase(reached_among(g, nodes, importer, n)),
        forall|k: Seq<char>| #[trigger]
            reached_among(g, nodes, importer, n).contains(k) <==> nodes.take(n).contains(k)
                && reaches(g, nodes, importer, k),
    decreases n,
{
    let now = reached_among(g, nodes, importer, n);
    if n > 0 {
        let before = reached_among(g, nodes, importer, n - 1);
        let last = nodes[n - 1];
        reached_among_is(g, nodes, importer, n - 1);
        assert(nodes.take(n) =~= nodes.take(n - 1).push(last));
        assert forall|i: int, j: int| 0 <= i < j < now.len() implies text_lt(#[trigger] now[i], #[trigger] now[j]) by {
            if j < before.len() {
                assert(text_lt(before[i], before[j]));
            } else {
                assert(before.contains(before[i]));
                let p = nodes.take(n - 1).index_of(before[i]);
                assert(text_lt(nodes[p], nodes[n - 1]));
            }
        }
        assert forall|k: Seq<char>| #[trigger] now.contains(k) <==> nodes.take(n).contains(k) && reaches(g, nodes, importer, k) by {
            push_contains(before, last, k);
            push_contains(nodes.take(n - 1), last, k);
        }
    }
}

/// The reachable packages are exactly those that a chain of dependencies leads
/// to from one of the importer's roots, in order.
pub proof fn reach_list_is_exact(g: GraphModel, nodes: Seq<Seq<char>>, importer: Seq<char>)
    requires
        names_increase(nodes),
    ensures
        is_reach_list(g, nodes, importer, reach_list(g, nodes, importer)),
{
    let list = reach_list(g, nodes, importer);
    reached_among_is(g, nodes, importer, nodes.len() as int);
    assert(nodes.take(nodes.len() as int) =~= nodes);
    assert forall|k: Seq<char>| #[trigger] list.contains(k) <==> reaches(g, nodes, importer, k) by {
        if reaches(g, nodes, importer, k) {
            reached_survives(g, nodes, importer, k);
        }
    }
}

proof fn walk_extends(
    g: GraphModel,
    nodes: Seq<Seq<char>>,
    importer: Seq<char>,
    a: Seq<char>,
    b: Seq<char>,
)
    requires
        reaches(g, nodes, importer, a),
        is_step(g, nodes, a, b),
    ensures
        reaches(g, nodes, importer, b),
{
    let path = choose|path: Seq<Seq<char>>| #[trigger] is_walk(g, nodes, importer, path) && path.last() == a;
    let longer = path.push(b);
    assert forall|i: int| 0 <= i && i + 1 < longer.len() implies is_step(g, nodes, #[trigger] longer[i], longer[i + 1]) by {
        if i + 1 < path.len() {
            assert(is_step(g, nodes, path[i], path[i + 1]));
        }
    }
    assert(is_walk(g, nodes, importer, longer));
    assert(longer.last() == b);
}

proof fn start_is_reached(g: GraphModel, nodes: Seq<Seq<char>>, importer: Seq<char>, k: Seq<char>)
    requires
        is_start(g, nodes, importer, k),
    ensures
        reaches(g, nodes, importer, k),
{
    let path = seq![k];
    assert(is_walk(g, nodes, importer, path));
    assert(path.last() == k);
}

/// What holds the roots and is closed under steps holds the end of every walk.
proof fn closed_holds_walk(
    g: GraphModel,
    nodes: Seq<Seq<char>>,
    importer: Seq<char>,
    seen: Seq<Seq<char>>,
    path: Seq<Seq<char>>,
)
    requires
        is_walk(g, nodes, importer, path),
        forall|k: Seq<char>| is_start(g, nodes, importer, k) ==> seen.contains(k),
        forall|a: Seq<char>, b: Seq<char>|
            seen.contains(a) && #[trigger] is_step(g, nodes, a, b) ==> seen.contains(b),
    ensures
        seen.contains(path.last()),
    decreases path.len(),
{
    if path.len() > 1 {
        let front = path.drop_last();
        assert forall|i: int| 0 <= i && i + 1 < front.len() implies is_step(g, nodes, #[trigger] front[i], front[i + 1]) by {
            assert(is_step(g, nodes, path[i], path[i + 1]));
        }
        closed_holds_walk(g, nodes, importer, seen, front);
        assert(is_step(g, nodes, path[path.len() - 2], path[path.len() - 1]));
    }
}

proof fn reached_survives(g: GraphModel, nodes: Seq<Seq<char>>, importer: Seq<char>, k: Seq<char>)
    requires
        reaches(g, nodes, importer, k),
    ensures
        nodes.contains(k),
{
    let path = choose|path: Seq<Seq<char>>| #[trigger] is_walk(g, nodes, importer, path) && path.last() == k;
    if path.len() > 1 {
        assert(is_step(g, nodes, path[path.len() - 2], path[path.len() - 1]));
    }
}

/// What of the first `n` roots the walk starts from.
fn starting_points(graph: &Graph, nodes: &NameSet, importer: &str) -> (stack: Vec<String>)
    ensures
        forall|k: Seq<char>|
            #[trigger] stack.deep_view().contains(k) <==> is_start(
                graph.deep_view(),
                nodes.deep_view(),
                importer@,
                k,
            ),
{
    let ghost g = graph.deep_view();
    let ghost ns = nodes.deep_view();
    let mut stack: Vec<String> = Vec::new();
    let mut i: usize = 0;
    while i < graph.roots.len()
        invariant
            g == graph.deep_view(),
            ns == nodes.deep_view(),
            i <= g.roots.len(),
            forall|k: Seq<char>|
                #[trigger] stack.deep_view().contains(k) <==> ns.contains(k) && exists|j: int|
                    0 <= j < i && (#[trigger] g.roots[j]).importer == importer@
                        && g.roots[j].target == Some(k),
        decreases g.roots.len() - i,
    {
        let root = &graph.roots[i];
        assert(g.roots[i as int] == root.deep_view());
        let ghost before = stack.deep_view();
        if same(root.importer.as_str(), importer) {
            if let Some(k) = &root.target {
                if nodes.contains(k) {
                    stack.push(k.clone());
                    proof {
                        assert(stack.deep_view() =~= before.push(k@));
                        assert(g.roots[i as int].target == Some(k@));
                        assert forall|x: Seq<char>| #[trigger] stack.deep_view().contains(x) <==> before.contains(x) || x == k@ by {
                            push_contains(before, k@, x);
                        }
                    }
                }
            }
        }
        i += 1;
    }
    stack
}

proof fn push_contains(s: Seq<Seq<char>>, k: Seq<char>, x: Seq<char>)
    ensures
        s.push(k).contains(x) <==> s.contains(x) || x == k,
{
    let t = s.push(k);
    if t.contains(x) {
        let i = t.index_of(x);
        if i < s.len() {
            assert(s[i] == x);
        }
    }
    if s.contains(x) {
        assert(t[s.index_of(x)] == x);
    }
    assert(t[s.len() as int] == k);
}

proof fn pop_contains(s: Seq<Seq<char>>, x: Seq<char>)
    requires
        s.len() > 0,
    ensures
        s.contains(x) <==> s.drop_last().contains(x) || x == s.last(),
{
    assert(s =~= s.drop_last().push(s.last()));
    push_contains(s.drop_last(), s.last(), x);
}

/// The snapshot keys reachable from `importer`'s roots, walking edges and
/// stopping at anything absent from `nodes`.
///
/// The graph contains cycles, so a visited set is kept.
fn reachable(graph: &Graph, nodes: &NameSet, importer: &str) -> (seen: NameSet)
    ensures
        is_reach_list(graph.deep_view(), nodes.deep_view(), importer@, seen.deep_view()),
{
    let ghost g = graph.deep_view();
    let ghost ns = nodes.deep_view();
    let ghost imp = importer@;
    let mut seen = NameSet::new();
    let mut stack = starting_points(graph, nodes, importer);
    proof {
        use_type_invariant(nodes);
        assert forall|i: int, j: int| 0 <= i < j < ns.len() implies text_lt(#[trigger] ns[i], #[trigger] ns[j]) by {
            assert(text_lt(nodes@[i]@, nodes@[j]@));
        }
        assert forall|k: Seq<char>| #[trigger] stack.deep_view().contains(k) implies reaches(g, ns, imp, k) by {
            start_is_reached(g, ns, imp, k);
        }
    }
    while stack.len() > 0
        invariant
            g == graph.deep_view(),
            ns == nodes.deep_view(),
            imp == importer@,
            names_increase(ns),
            names_increase(seen.deep_view()),
            forall|k: Seq<char>| #[trigger] stack.deep_view().contains(k) ==> reaches(g, ns, imp, k),
            forall|k: Seq<char>| #[trigger] seen.deep_view().contains(k) ==> reaches(g, ns, imp, k),
            forall|k: Seq<char>|
                is_start(g, ns, imp, k) ==> seen.deep_view().contains(k)
                    || stack.deep_view().contains(k),
            forall|a: Seq<char>, b: Seq<char>|
                seen.deep_view().contains(a) && #[trigger] is_step(g, ns, a, b)
                    ==> seen.deep_view().contains(b) || stack.deep_view().contains(b),
            seen.deep_view().len() <= ns.len(),
        decreases ns.len() - seen.deep_view().len(), stack.len(),
    {
        let ghost full = stack.deep_view();
        let ghost known = seen.deep_view();
        let key = stack.pop().unwrap();
        proof {
            assert(stack.deep_view() =~= full.drop_last());
            assert(full.last() == key@);
            assert forall|x: Seq<char>| #[trigger] full.contains(x) <==> stack.deep_view().contains(x) || x == key@ by {
                pop_contains(full, x);
            }
            assert(full.contains(key@));
            assert forall|x: Seq<char>| #[trigger] stack.deep_view().contains(x) implies reaches(g, ns, imp, x) by {
                assert(full.contains(x));
            }
        }
        if seen.contains(&key) {
            continue ;
        }
        seen.insert(key.clone());
        proof {
            let now = seen.deep_view();
            assert forall|x: Seq<char>| #[trigger] now.contains(x) <==> known.contains(x) || x == key@ by {
                assert(now.to_set().contains(x) == known.to_set().insert(key@).contains(x));
            }
            assert forall|x: Seq<char>| #[trigger] now.contains(x) implies ns.contains(x) by {
                reached_survives(g, ns, imp, x);
            }
            increasing_fits(now, ns);
        }
        if let Some(node) = graph.nodes.get(&key) {
            let ghost edges = node.edges.deep_view();
            let mut j: usize = 0;
            while j < node.edges.len()
                invariant
                    g == graph.deep_view(),
                    ns == nodes.deep_view(),
                    imp == importer@,
                    edges == node.edges.deep_view(),
                    lookup(g.nodes, key@) == Some(node.deep_view()),
                    reaches(g, ns, imp, key@),
                    j <= edges.len(),
                    forall|x: Seq<char>| #[trigger] full.contains(x) && x != key@ ==> stack.deep_view().contains(x),
                    forall|k: Seq<char>| #[trigger] stack.deep_view().contains(k) ==> reaches(g, ns, imp, k),
                    forall|i: int|
                        0 <= i < j && ns.contains((#[trigger] edges[i]).target)
                            ==> seen.deep_view().contains(edges[i].target)
                            || stack.deep_view().contains(edges[i].target),
                decreases edges.len() - j,
            {
                let edge = &node.edges[j];
                assert(edges[j as int] == edge.deep_view());
                if nodes.contains(&edge.target) && !seen.contains(&edge.target) {
                    let ghost before = stack.deep_view();
                    stack.push(edge.target.clone());
                    proof {
                        let t = edge.target@;
                        assert(stack.deep_view() =~= before.push(t));
                        assert forall|x: Seq<char>| #[trigger] stack.deep_view().contains(x) <==> before.contains(x) || x == t by {
                            push_contains(before, t, x);
                        }
                        assert(lookup(g.nodes, key@)->Some_0.edges[j as int].target == t);
                        assert(is_step(g, ns, key@, t));
                        walk_extends(g, ns, imp, key@, t);
                    }
                }
                j += 1;
            }
        }
        proof {
            assert forall|a: Seq<char>, b: Seq<char>|
                seen.deep_view().contains(a) && #[trigger] is_step(g, ns, a, b) implies seen.deep_view().contains(b)
                || stack.deep_view().contains(b) by {
                if a == key@ {
                    let e = lookup(g.nodes, a)->Some_0.edges;
                    let i = choose|i: int| 0 <= i < e.len() && (#[trigger] e[i]).target == b;
                    assert(e[i].target == b);
                }
            }
        }
    }
    proof {
        assert(stack.deep_view().len() == 0);
        assert forall|k: Seq<char>| #[trigger] seen.deep_view().contains(k) <==> reaches(g, ns, imp, k) by {
            if reaches(g, ns, imp, k) {
                let path = choose|path: Seq<Seq<char>>| #[trigger] is_walk(g, ns, imp, path) && path.last() == k;
                closed_holds_walk(g, ns, imp, seen.deep_view(), path);
            }
        }
    }
    seen
}

// --- What the tree holds --------------------------------------------------------

/// `n` levels of `../`.
pub open spec fn climb_text(n: nat) -> Seq<char>
    decreases n,
{
    if n == 0 {
        Seq::empty()
    } else {
        climb_text((n - 1) as nat) + "../"@
    }
}

/// How many path segments a `node_modules/` entry name occupies: one for `ms`,
/// two for `@jridgewell/set-array`.
pub open spec fn segment_count(name: Seq<char>) -> nat {
    split_on(name, '/').len()
}

/// Where a package's own directory lives inside the virtual store.
pub open spec fn store_text(key: Seq<char>, dir: Seq<char>) -> Seq<char> {
    ".pnpm/"@ + target_text(key) + "/node_modules/"@ + dir
}

/// The bins a package exposes, command name to path within the package.
pub open spec fn bins_under(entries: Table<EntryModel>, key: Seq<char>) -> Table<Seq<char>> {
    match lookup(entries, key) {
        Some(e) => e.bin,
        None => Seq::empty(),
    }
}

/// One link per bin.
pub open spec fn bin_links(
    bins: Table<Seq<char>>,
    dir: Seq<char>,
    package: Seq<char>,
) -> Table<Seq<char>> {
    bins.map_values(|b: (Seq<char>, Seq<char>)| (dir + b.0, package + "/"@ + b.1))
}

/// The link from one package's directory to a dependency.
///
/// From the link's own directory it climbs to `.pnpm/`: two levels for the pair
/// `<target>/node_modules/`, and one more for each further segment of the name.
pub open spec fn sibling_link(key: Seq<char>, e: EdgeModel, dep: NodeModel) -> (
    Seq<char>,
    Seq<char>,
) {
    (
        store_text(key, e.link_name),
        climb_text(segment_count(e.link_name) + 1) + target_text(e.target) + "/node_modules/"@
            + dep.name,
    )
}

/// The links to a dependency's bins, three levels below `.pnpm/`.
pub open spec fn sibling_bins(
    entries: Table<EntryModel>,
    key: Seq<char>,
    e: EdgeModel,
    dep: NodeModel,
) -> Table<Seq<char>> {
    bin_links(
        bins_under(entries, e.target),
        ".pnpm/"@ + target_text(key) + "/node_modules/.bin/"@,
        climb_text(3) + target_text(e.target) + "/node_modules/"@ + dep.name,
    )
}

/// The links of a package to its first `n` dependencies and their bins.
pub open spec fn edge_links(
    g: GraphModel,
    nodes: Seq<Seq<char>>,
    entries: Table<EntryModel>,
    key: Seq<char>,
    edges: Seq<EdgeModel>,
    n: int,
) -> Table<Seq<char>>
    decreases n,
{
    if n <= 0 {
        Seq::empty()
    } else {
        let before = edge_links(g, nodes, entries, key, edges, n - 1);
        let e = edges[n - 1];
        match lookup(g.nodes, e.target) {
            Some(dep) => if nodes.contains(e.target) {
                before.push(sibling_link(key, e, dep)) + sibling_bins(entries, key, e, dep)
            } else {
                before
            },
            None => before,
        }
    }
}

/// The copies of the first `n` reachable packages.
pub open spec fn copy_list(g: GraphModel, reach: Seq<Seq<char>>, n: int) -> Table<Seq<char>>
    decreases n,
{
    if n <= 0 {
        Seq::empty()
    } else {
        match lookup(g.nodes, reach[n - 1]) {
            Some(node) => copy_list(g, reach, n - 1).push(
                (store_text(reach[n - 1], node.name), reach[n - 1]),
            ),
            None => copy_list(g, reach, n - 1),
        }
    }
}

/// The links of the first `n` reachable packages.
pub open spec fn node_links(
    g: GraphModel,
    nodes: Seq<Seq<char>>,
    entries: Table<EntryModel>,
    reach: Seq<Seq<char>>,
    n: int,
) -> Table<Seq<char>>
    decreases n,
{
    if n <= 0 {
        Seq::empty()
    } else {
        let before = node_links(g, nodes, entries, reach, n - 1);
        match lookup(g.nodes, reach[n - 1]) {
            Some(node) => before + edge_links(
                g,
                nodes,
                entries,
                reach[n - 1],
                node.edges,
                node.edges.len() as int,
            ),
            None => before,
        }
    }
}

/// The top-level link of a root.
pub open spec fn top_link(link_name: Seq<char>, key: Seq<char>, node: NodeModel) -> (
    Seq<char>,
    Seq<char>,
) {
    (
        link_name,
        climb_text((segment_count(link_name) - 1) as nat) + store_text(key, node.name),
    )
}

/// The links to a direct dependency's bins, one level below the tree root.
pub open spec fn top_bins(entries: Table<EntryModel>, key: Seq<char>, node: NodeModel) -> Table<
    Seq<char>,
> {
    bin_links(bins_under(entries, key), ".bin/"@, climb_text(1) + store_text(key, node.name))
}

/// The top-level links of those of the first `n` roots that are the importer's.
pub open spec fn root_links(
    g: GraphModel,
    entries: Table<EntryModel>,
    importer: Seq<char>,
    reach: Seq<Seq<char>>,
    n: int,
) -> Table<Seq<char>>
    decreases n,
{
    if n <= 0 {
        Seq::empty()
    } else {
        let before = root_links(g, entries, importer, reach, n - 1);
        let root = g.roots[n - 1];
        if root.importer != importer || root.target is None || !reach.contains(
            root.target->Some_0,
        ) {
            before
        } else {
            let key = root.target->Some_0;
            match lookup(g.nodes, key) {
                Some(node) => before.push(top_link(root.link_name, key, node)) + top_bins(
                    entries,
                    key,
                    node,
                ),
                None => before,
            }
        }
    }
}

/// All copies of an importer's tree, in the order they are put in.
pub open spec fn copies_of(g: GraphModel, nodes: Seq<Seq<char>>, importer: Seq<char>) -> Table<
    Seq<char>,
> {
    let reach = reach_list(g, nodes, importer);
    copy_list(g, reach, reach.len() as int)
}

/// All links of an importer's tree, in the order they are put in: where two have
/// one destination, the later one stays.
pub open spec fn links_of(
    g: GraphModel,
    nodes: Seq<Seq<char>>,
    entries: Table<EntryModel>,
    importer: Seq<char>,
) -> Table<Seq<char>> {
    let reach = reach_list(g, nodes, importer);
    node_links(g, nodes, entries, reach, reach.len() as int) + root_links(
        g,
        entries,
        importer,
        reach,
        g.roots.len() as int,
    )
}

// --- Building it ----------------------------------------------------------------

/// `n` levels of `../`, or the empty string for zero.
fn up(n: usize) -> (r: String)
    ensures
        r@ == climb_text(n as nat),
{
    let mut out = String::new();
    let mut i: usize = 0;
    while i < n
        invariant
            i <= n,
            out@ == climb_text(i as nat),
        decreases n - i,
    {
        out.append("../");
        i += 1;
    }
    out
}

proof fn climb_adds(a: nat, b: nat)
    ensures
        climb_text(a) + climb_text(b) == climb_text(a + b),
    decreases b,
{
    if b == 0 {
        assert(climb_text(a) + climb_text(b) =~= climb_text(a));
    } else {
        climb_adds(a, (b - 1) as nat);
        assert(climb_text(a) + climb_text(b) =~= climb_text(a) + climb_text((b - 1) as nat) + "../"@);
    }
}

/// How many path segments an entry name occupies beyond the first.
fn extra_segments(link_name: &str) -> (r: usize)
    ensures
        r + 1 == segment_count(link_name@),
{
    let chars = chars_of(link_name);
    let mut count: usize = 0;
    let mut i: usize = 0;
    assert(link_name@.take(0) =~= Seq::<char>::empty());
    while i < chars.len()
        invariant
            chars@ == link_name@,
            i <= chars.len(),
            count <= i,
            count + 1 == split_on(link_name@.take(i as int), '/').len(),
        decreases chars.len() - i,
    {
        proof {
            assert(link_name@.take(i + 1).drop_last() =~= link_name@.take(i as int));
            assert(link_name@.take(i + 1).last() == chars@[i as int]);
        }
        if chars[i] == '/' {
            count += 1;
        }
        i += 1;
    }
    assert(link_name@.take(i as int) =~= link_name@);
    count
}

fn store_path(key: &str, dir: &str) -> (r: String)
    ensures
        r@ == store_text(key@, dir@),
{
    let mut out = ".pnpm/".to_owned();
    out.append(target_name(key).as_str());
    out.append("/node_modules/");
    out.append(dir);
    out
}

/// Links the bins that the package table records under `key`.
fn put_bins(links: &mut Dict<String>, entries: &Dict<Entry>, key: &str, dir: &str, package: &str)
    ensures
        as_map(final(links).deep_view()) == put_all(
            as_map(old(links).deep_view()),
            bin_links(bins_under(entries.deep_view(), key@), dir@, package@),
        ),
{
    let ghost start = as_map(links.deep_view());
    let ghost bins = bins_under(entries.deep_view(), key@);
    let ghost want = bin_links(bins, dir@, package@);
    if let Some(e) = entries.get(key) {
        let mut i: usize = 0;
        assert(want.take(0) =~= Seq::<(Seq<char>, Seq<char>)>::empty());
        while i < e.bin.len()
            invariant
                bins == e.bin.deep_view(),
                want == bin_links(bins, dir@, package@),
                i <= bins.len(),
                as_map(links.deep_view()) == put_all(start, want.take(i as int)),
            decreases bins.len() - i,
        {
            let mut dest = dir.to_owned();
            dest.append(e.bin.key(i).as_str());
            let mut target = package.to_owned();
            target.append("/");
            target.append(e.bin.value(i).as_str());
            proof {
                assert(bins[i as int] == (e.bin@[i as int].0@, e.bin@[i as int].1@));
                assert(want[i as int] == (dest@, target@));
                put_all_push(start, want.take(i as int), want[i as int]);
                assert(want.take(i + 1) =~= want.take(i as int).push(want[i as int]));
            }
            links.insert(dest, target);
            i += 1;
        }
        assert(want.take(i as int) =~= want);
    } else {
        assert(want =~= Seq::<(Seq<char>, Seq<char>)>::empty());
    }
}

/// Links a package to its dependencies and their bins.
fn put_edges(
    links: &mut Dict<String>,
    graph: &Graph,
    nodes: &NameSet,
    entries: &Dict<Entry>,
    key: &String,
    node: &Node,
)
    ensures
        as_map(final(links).deep_view()) == put_all(
            as_map(old(links).deep_view()),
            edge_links(
                graph.deep_view(),
                nodes.deep_view(),
                entries.deep_view(),
                key@,
                node.deep_view().edges,
                node.deep_view().edges.len() as int,
            ),
        ),
{
    let ghost g = graph.deep_view();
    let ghost ns = nodes.deep_view();
    let ghost es = entries.deep_view();
    let ghost start = as_map(links.deep_view());
    let ghost edges = node.edges.deep_view();
    let mut j: usize = 0;
    while j < node.edges.len()
        invariant
            g == graph.deep_view(),
            ns == nodes.deep_view(),
            es == entries.deep_view(),
            edges == node.edges.deep_view(),
            j <= edges.len(),
            as_map(links.deep_view()) == put_all(start, edge_links(g, ns, es, key@, edges, j as int)),
        decreases edges.len() - j,
    {
        let edge = &node.edges[j];
        let ghost e = edges[j as int];
        assert(e == edge.deep_view());
        let ghost before = edge_links(g, ns, es, key@, edges, j as int);
        if let Some(dep) = graph.nodes.get(&edge.target) {
            if nodes.contains(&edge.target) {
                let dest = store_path(key, &edge.link_name);
                let mut target = up(2);
                target.append(up(extra_segments(&edge.link_name)).as_str());
                let tn = target_name(&edge.target);
                target.append(tn.as_str());
                target.append("/node_modules/");
                target.append(dep.name.as_str());
                let ghost link = sibling_link(key@, e, dep.deep_view());
                proof {
                    climb_adds(2, (segment_count(e.link_name) - 1) as nat);
                    assert(link == (dest@, target@));
                    put_all_push(start, before, link);
                }
                links.insert(dest, target);
                let mut dir = ".pnpm/".to_owned();
                dir.append(target_name(key).as_str());
                dir.append("/node_modules/.bin/");
                let mut package = up(3);
                package.append(tn.as_str());
                package.append("/node_modules/");
                package.append(dep.name.as_str());
                put_bins(links, entries, &edge.target, &dir, &package);
                proof {
                    put_all_concat(start, before.push(link), sibling_bins(es, key@, e, dep.deep_view()));
                }
            }
        }
        j += 1;
    }
}

/// Lays out the store for one importer: `nodes` are the packages that survive,
/// `entries` the package table.
pub fn build(graph: &Graph, nodes: &NameSet, entries: &Dict<Entry>, importer: &str) -> (tree: Tree)
    ensures
        as_map(tree.copies.deep_view()) == put_all(
            Map::empty(),
            copies_of(graph.deep_view(), nodes.deep_view(), importer@),
        ),
        as_map(tree.links.deep_view()) == put_all(
            Map::empty(),
            links_of(graph.deep_view(), nodes.deep_view(), entries.deep_view(), importer@),
        ),
{
    let ghost g = graph.deep_view();
    let ghost ns = nodes.deep_view();
    let ghost es = entries.deep_view();
    let mut copies: Dict<String> = Dict::new();
    let mut links: Dict<String> = Dict::new();
    let reach = reachable(graph, nodes, importer);
    let ghost rs = reach.deep_view();
    let ghost none = Map::<Seq<char>, Seq<char>>::empty();
    proof {
        let chosen = reach_list(g, ns, importer@);
        use_type_invariant(nodes);
        assert forall|i: int, j: int| 0 <= i < j < ns.len() implies text_lt(#[trigger] ns[i], #[trigger] ns[j]) by {
            assert(text_lt(nodes@[i]@, nodes@[j]@));
        }
        reach_list_is_exact(g, ns, importer@);
        assert forall|k: Seq<char>| rs.contains(k) <==> chosen.contains(k) by {}
        increasing_is_unique(rs, chosen);
        assert(as_map(copies.deep_view()) =~= none);
        assert(as_map(links.deep_view()) =~= none);
    }
    let mut i: usize = 0;
    while i < reach.len()
        invariant
            g == graph.deep_view(),
            ns == nodes.deep_view(),
            es == entries.deep_view(),
            rs == reach.deep_view(),
            none == Map::<Seq<char>, Seq<char>>::empty(),
            i <= rs.len(),
            as_map(copies.deep_view()) == put_all(none, copy_list(g, rs, i as int)),
            as_map(links.deep_view()) == put_all(none, node_links(g, ns, es, rs, i as int)),
        decreases rs.len() - i,
    {
        let key = reach.name(i);
        assert(rs[i as int] == key@);
        if let Some(node) = graph.nodes.get(key) {
            let dest = store_path(key, &node.name);
            proof {
                put_all_push(none, copy_list(g, rs, i as int), (dest@, key@));
                put_all_concat(
                    none,
                    node_links(g, ns, es, rs, i as int),
                    edge_links(g, ns, es, key@, node.deep_view().edges, node.deep_view().edges.len() as int),
                );
            }
            copies.insert(dest, key.clone());
            put_edges(&mut links, graph, nodes, entries, key, node);
        }
        i += 1;
    }
    let ghost below = node_links(g, ns, es, rs, rs.len() as int);
    // Top-level links, one per root of this importer.
    i = 0;
    assert(below + root_links(g, es, importer@, rs, 0) =~= below);
    while i < graph.roots.len()
        invariant
            g == graph.deep_view(),
            ns == nodes.deep_view(),
            es == entries.deep_view(),
            rs == reach.deep_view(),
            none == Map::<Seq<char>, Seq<char>>::empty(),
            is_reach_list(g, ns, importer@, rs),
            i <= g.roots.len(),
            as_map(links.deep_view()) == put_all(
                none,
                below + root_links(g, es, importer@, rs, i as int),
            ),
        decreases g.roots.len() - i,
    {
        let root = &graph.roots[i];
        assert(g.roots[i as int] == root.deep_view());
        let ghost before = root_links(g, es, importer@, rs, i as int);
        if same(root.importer.as_str(), importer) {
            if let Some(key) = &root.target {
                if nodes.contains(key) && reach.contains(key) {
                    if let Some(node) = graph.nodes.get(key) {
                        let path = store_path(key, &node.name);
                        let mut target = up(extra_segments(&root.link_name));
                        target.append(path.as_str());
                        let ghost link = top_link(root.link_name@, key@, node.deep_view());
                        let ghost bins = top_bins(es, key@, node.deep_view());
                        proof {
                            assert(link == (root.link_name@, target@));
                            put_all_push(none, below + before, link);
                            assert((below + before).push(link) =~= below + before.push(link));
                            put_all_concat(none, below + before.push(link), bins);
                            assert(below + before.push(link) + bins =~= below + (before.push(link) + bins));
                        }
                        links.insert(root.link_name.clone(), target);
                        let mut package = up(1);
                        package.append(path.as_str());
                        put_bins(&mut links, entries, key, ".bin/", &package);
                    }
                } else {
                    proof {
                        if rs.contains(key@) {
                            reached_survives(g, ns, importer@, key@);
                        }
                    }
                }
            }
        }
        i += 1;
    }
    Tree { copies, links }
}

// --- Laws -----------------------------------------------------------------------

/// The path that a link points at, textually: its target seen from the
/// directory that the link stands in.
pub open spec fn resolve_link(dest: Seq<char>, target: Seq<char>) -> Option<Seq<char>> {
    match follow(split_on(dest, '/').drop_last(), split_on(target, '/')) {
        None => None,
        Some(at) => Some(join_with(at, seq!['/'])),
    }
}

/// The path is a copied package, or a file inside one.
pub open spec fn lands_in_a_copy(copies: Map<Seq<char>, Seq<char>>, path: Seq<char>) -> bool {
    exists|c: Seq<char>| #[trigger] copies.contains_key(c) && (path == c || (c + seq!['/']).is_prefix_of(path))
}

/// The link points at a copied package, or at a file inside one.
pub open spec fn link_is_sound(
    copies: Map<Seq<char>, Seq<char>>,
    link: (Seq<char>, Seq<char>),
) -> bool {
    &&& resolve_link(link.0, link.1) is Some
    &&& lands_in_a_copy(copies, resolve_link(link.0, link.1)->Some_0)
}

/// What an importer's roots lead to has keys that hold an `@`, as snapshot keys do, and
/// names that are plain paths.
pub open spec fn names_are_plain(
    g: GraphModel,
    nodes: Seq<Seq<char>>,
    importer: Seq<char>,
) -> bool {
    forall|k: Seq<char>|
        #[trigger] reaches(g, nodes, importer, k) && lookup(g.nodes, k) is Some ==> k.contains('@')
            && is_plain_path(lookup(g.nodes, k)->Some_0.name)
}

/// A path that never climbs.
pub open spec fn never_climbs(p: Seq<char>) -> bool {
    forall|i: int|
        0 <= i < split_on(p, '/').len() ==> #[trigger] split_on(p, '/')[i] != seq!['.', '.']
}

/// A package table whose bins are single names with paths that never climb.
pub open spec fn bins_stay_inside(entries: Table<EntryModel>) -> bool {
    forall|i: int, j: int|
        0 <= i < entries.len() && 0 <= j < entries[i].1.bin.len() ==> !(
        #[trigger] entries[i].1.bin[j]).0.contains('/') && never_climbs(entries[i].1.bin[j].1)
}

/// Those of some components that name directory entries.
spec fn kept(comps: Seq<Seq<char>>) -> Seq<Seq<char>>
    decreases comps.len(),
{
    if comps.len() == 0 {
        Seq::empty()
    } else if is_entry(comps.last()) {
        kept(comps.drop_last()).push(comps.last())
    } else {
        kept(comps.drop_last())
    }
}

/// Following components that never climb descends by those that name entries.
proof fn follow_down(dir: Seq<Seq<char>>, comps: Seq<Seq<char>>)
    requires
        forall|i: int| 0 <= i < comps.len() ==> #[trigger] comps[i] != seq!['.', '.'],
    ensures
        follow(dir, comps) == Some(dir + kept(comps)),
    decreases comps.len(),
{
    if comps.len() == 0 {
        assert(dir + kept(comps) =~= dir);
    } else {
        let front = comps.drop_last();
        assert forall|i: int| 0 <= i < front.len() implies #[trigger] front[i] != seq!['.', '.'] by {
            assert(front[i] == comps[i]);
        }
        follow_down(dir, front);
        assert(comps[comps.len() - 1] != seq!['.', '.']);
        assert(dir + kept(front).push(comps.last()) =~= (dir + kept(front)).push(comps.last()));
    }
}

/// A path with components behind it lies below it.
proof fn join_grows(at: Seq<Seq<char>>, more: Seq<Seq<char>>)
    requires
        at.len() > 0,
    ensures
        more.len() == 0 ==> join_with(at + more, seq!['/']) == join_with(at, seq!['/']),
        more.len() > 0 ==> (join_with(at, seq!['/']) + seq!['/']).is_prefix_of(
            join_with(at + more, seq!['/']),
        ),
    decreases more.len(),
{
    let slash = seq!['/'];
    if more.len() == 0 {
        assert(at + more =~= at);
    } else {
        let all = at + more;
        let front = more.drop_last();
        let base = join_with(at, slash) + slash;
        assert(all.drop_last() =~= at + front);
        join_grows(at, front);
        let inner = join_with(at + front, slash);
        let whole = join_with(all, slash);
        assert(whole == inner + slash + all.last());
        if front.len() > 0 {
            assert(whole.subrange(0, base.len() as int) =~= inner.subrange(0, base.len() as int));
        } else {
            assert(whole.subrange(0, base.len() as int) =~= base);
        }
    }
}

/// A link into a package by a path that never climbs lands in its copy.
proof fn bin_lands(
    copies: Map<Seq<char>, Seq<char>>,
    dest: Seq<char>,
    package: Seq<char>,
    home: Seq<char>,
    bin: Seq<char>,
)
    requires
        follow(split_on(dest, '/').drop_last(), split_on(package, '/')) == Some(
            split_on(home, '/'),
        ),
        copies.contains_key(home),
        never_climbs(bin),
    ensures
        link_is_sound(copies, (dest, package + "/"@ + bin)),
{
    reveal_strlit("/");
    assert("/"@ =~= seq!['/']);
    let target = package + "/"@ + bin;
    let dir = split_on(dest, '/').drop_last();
    let at = split_on(home, '/');
    let more = kept(split_on(bin, '/'));
    split_joined(package, bin, '/');
    follow_concat(dir, split_on(package, '/'), split_on(bin, '/'));
    follow_down(at, split_on(bin, '/'));
    split_not_empty(home, '/');
    join_grows(at, more);
    join_split(home, '/');
    let path = resolve_link(dest, target)->Some_0;
    assert(path == join_with(at + more, seq!['/']));
    assert(copies.contains_key(home));
}

proof fn split_climb(n: nat, rest: Seq<char>)
    ensures
        split_on(climb_text(n) + rest, '/') == ups(n) + split_on(rest, '/'),
    decreases n,
{
    if n == 0 {
        assert(climb_text(n) + rest =~= rest);
        assert(ups(n) + split_on(rest, '/') =~= split_on(rest, '/'));
    } else {
        let m = (n - 1) as nat;
        let dots = seq!['.', '.'];
        reveal_strlit("../");
        assert("../"@ =~= dots + seq!['/']);
        let tail = dots + seq!['/'] + rest;
        assert(climb_text(n) + rest =~= climb_text(m) + tail);
        split_climb(m, tail);
        split_joined(dots, rest, '/');
        split_plain(dots, '/');
        assert(ups(m) + (seq![dots] + split_on(rest, '/')) =~= ups(n) + split_on(rest, '/'));
    }
}

/// The components of a path in the virtual store.
proof fn split_store(key: Seq<char>, dir: Seq<char>)
    ensures
        split_on(store_text(key, dir), '/') == seq![".pnpm"@, target_text(key), "node_modules"@]
            + split_on(dir, '/'),
        split_on(target_text(key) + "/node_modules/"@ + dir, '/') == seq![
            target_text(key),
            "node_modules"@,
        ] + split_on(dir, '/'),
{
    let tn = target_text(key);
    reveal_strlit(".pnpm/");
    reveal_strlit(".pnpm");
    reveal_strlit("/node_modules/");
    reveal_strlit("node_modules");
    let a = ".pnpm"@;
    let b = "node_modules"@;
    let slash = seq!['/'];
    assert(".pnpm/"@ =~= a + slash);
    assert("/node_modules/"@ =~= slash + b + slash);
    target_name_has_no_slash(key);
    let inner = b + slash + dir;
    let rest = tn + slash + inner;
    assert(tn + "/node_modules/"@ + dir =~= rest);
    assert(store_text(key, dir) =~= a + slash + rest);
    split_joined(a, rest, '/');
    split_joined(tn, inner, '/');
    split_joined(b, dir, '/');
    split_plain(a, '/');
    split_plain(b, '/');
    split_plain(tn, '/');
    assert(split_on(rest, '/') =~= seq![tn, b] + split_on(dir, '/'));
    assert(split_on(store_text(key, dir), '/') =~= seq![a, tn, b] + split_on(dir, '/'));
}

/// A link that climbs `n` levels and then descends by `rest` points at `rest`
/// below the directory `n` levels up.
proof fn climbing_resolves(
    dest: Seq<char>,
    n: nat,
    rest: Seq<char>,
    above: Seq<Seq<char>>,
    path: Seq<char>,
)
    requires
        ({
            let dir = split_on(dest, '/').drop_last();
            &&& n <= dir.len()
            &&& above == dir.take(dir.len() - n)
        }),
        is_plain_path(rest),
        split_on(path, '/') == above + split_on(rest, '/'),
    ensures
        resolve_link(dest, climb_text(n) + rest) == Some(path),
        follow(split_on(dest, '/').drop_last(), split_on(climb_text(n) + rest, '/')) == Some(
            split_on(path, '/'),
        ),
{
    let dir = split_on(dest, '/').drop_last();
    split_climb(n, rest);
    follow_concat(dir, ups(n), split_on(rest, '/'));
    follow_up(dir, n);
    follow_plain(above, split_on(rest, '/'));
    join_split(path, '/');
}

proof fn store_is_plain(key: Seq<char>, dir: Seq<char>)
    requires
        key.contains('@'),
        is_plain_path(dir),
    ensures
        is_plain_path(store_text(key, dir)),
        is_plain_path(target_text(key) + "/node_modules/"@ + dir),
{
    split_store(key, dir);
    target_name_is_a_name(key);
    reveal_strlit(".pnpm");
    reveal_strlit("node_modules");
    let tail = split_on(dir, '/');
    let long = split_on(store_text(key, dir), '/');
    let short = split_on(target_text(key) + "/node_modules/"@ + dir, '/');
    assert forall|i: int| 0 <= i < long.len() implies is_entry(#[trigger] long[i]) by {
        if i >= 3 {
            assert(long[i] == tail[i - 3]);
        }
    }
    assert forall|i: int| 0 <= i < short.len() implies is_entry(#[trigger] short[i]) by {
        if i >= 2 {
            assert(short[i] == tail[i - 2]);
        }
    }
}

/// The link to a dependency points at the dependency's own directory.
proof fn sibling_resolves(key: Seq<char>, e: EdgeModel, dep: NodeModel)
    requires
        e.target.contains('@'),
        is_plain_path(dep.name),
    ensures
        resolve_link(sibling_link(key, e, dep).0, sibling_link(key, e, dep).1) == Some(
            store_text(e.target, dep.name),
        ),
{
    let dest = store_text(key, e.link_name);
    let n = (segment_count(e.link_name) + 1) as nat;
    let rest = target_text(e.target) + "/node_modules/"@ + dep.name;
    split_store(key, e.link_name);
    split_store(e.target, dep.name);
    store_is_plain(e.target, dep.name);
    split_not_empty(e.link_name, '/');
    let dir = split_on(dest, '/').drop_last();
    let above = dir.take(dir.len() - n);
    assert(above =~= seq![".pnpm"@]);
    assert(split_on(store_text(e.target, dep.name), '/') =~= above + split_on(rest, '/'));
    climbing_resolves(dest, n, rest, above, store_text(e.target, dep.name));
    assert(climb_text(n) + target_text(e.target) + "/node_modules/"@ + dep.name =~= climb_text(n) + rest);
}

/// From where a dependency's bins are linked, their links lead to the dependency's own
/// directory first.
proof fn sibling_bin_leads_home(key: Seq<char>, e: EdgeModel, dep: NodeModel, name: Seq<char>)
    requires
        e.target.contains('@'),
        is_plain_path(dep.name),
        !name.contains('/'),
    ensures
        follow(
            split_on(".pnpm/"@ + target_text(key) + "/node_modules/.bin/"@ + name, '/').drop_last(),
            split_on(climb_text(3) + target_text(e.target) + "/node_modules/"@ + dep.name, '/'),
        ) == Some(split_on(store_text(e.target, dep.name), '/')),
{
    let slash = seq!['/'];
    reveal_strlit("/node_modules/.bin/");
    reveal_strlit("/node_modules/");
    reveal_strlit(".bin");
    assert("/node_modules/.bin/"@ =~= "/node_modules/"@ + ".bin"@ + slash);
    let inner = ".bin"@ + slash + name;
    let dest = ".pnpm/"@ + target_text(key) + "/node_modules/.bin/"@ + name;
    assert(dest =~= store_text(key, inner));
    split_store(key, inner);
    split_joined(".bin"@, name, '/');
    split_plain(".bin"@, '/');
    split_plain(name, '/');
    let dir = split_on(dest, '/').drop_last();
    let above = dir.take(dir.len() - 3);
    assert(above =~= seq![".pnpm"@]);
    let home = target_text(e.target) + "/node_modules/"@ + dep.name;
    let path = store_text(e.target, dep.name);
    store_is_plain(e.target, dep.name);
    split_store(e.target, dep.name);
    assert(split_on(path, '/') =~= above + split_on(home, '/'));
    climbing_resolves(dest, 3, home, above, path);
    assert(climb_text(3) + target_text(e.target) + "/node_modules/"@ + dep.name =~= climb_text(3)
        + home);
}

/// The top-level link of a root points at the package's own directory.
proof fn top_resolves(link_name: Seq<char>, key: Seq<char>, node: NodeModel)
    requires
        key.contains('@'),
        is_plain_path(node.name),
    ensures
        resolve_link(top_link(link_name, key, node).0, top_link(link_name, key, node).1) == Some(
            store_text(key, node.name),
        ),
{
    split_not_empty(link_name, '/');
    let n = (segment_count(link_name) - 1) as nat;
    let dir = split_on(link_name, '/').drop_last();
    let rest = store_text(key, node.name);
    let above = dir.take(dir.len() - n);
    assert(above =~= Seq::<Seq<char>>::empty());
    store_is_plain(key, node.name);
    assert(split_on(rest, '/') =~= above + split_on(rest, '/'));
    climbing_resolves(link_name, n, rest, above, rest);
}

/// From where a direct dependency's bins are linked, their links lead to the package's
/// own directory first.
proof fn top_bin_leads_home(key: Seq<char>, node: NodeModel, name: Seq<char>)
    requires
        key.contains('@'),
        is_plain_path(node.name),
        !name.contains('/'),
    ensures
        follow(
            split_on(".bin/"@ + name, '/').drop_last(),
            split_on(climb_text(1) + store_text(key, node.name), '/'),
        ) == Some(split_on(store_text(key, node.name), '/')),
{
    let slash = seq!['/'];
    reveal_strlit(".bin/");
    reveal_strlit(".bin");
    let dest = ".bin/"@ + name;
    assert(dest =~= ".bin"@ + slash + name);
    split_joined(".bin"@, name, '/');
    split_plain(".bin"@, '/');
    split_plain(name, '/');
    let dir = split_on(dest, '/').drop_last();
    let above = dir.take(dir.len() - 1);
    assert(above =~= Seq::<Seq<char>>::empty());
    let path = store_text(key, node.name);
    store_is_plain(key, node.name);
    assert(split_on(path, '/') =~= above + split_on(path, '/'));
    climbing_resolves(dest, 1, path, above, path);
}

/// A reachable package is copied into the store.
proof fn reached_is_copied(g: GraphModel, reach: Seq<Seq<char>>, n: int, k: Seq<char>)
    requires
        0 <= n <= reach.len(),
        reach.take(n).contains(k),
        lookup(g.nodes, k) is Some,
    ensures
        has_key(copy_list(g, reach, n), store_text(k, lookup(g.nodes, k)->Some_0.name)),
    decreases n,
{
    let i = reach.take(n).index_of(k);
    let list = copy_list(g, reach, n);
    if i == n - 1 {
        assert(reach[n - 1] == k);
        assert(list[list.len() - 1].0 == store_text(k, lookup(g.nodes, k)->Some_0.name));
    } else {
        assert(reach.take(n - 1)[i] == k);
        reached_is_copied(g, reach, n - 1, k);
        let before = copy_list(g, reach, n - 1);
        let p = key_index(before, store_text(k, lookup(g.nodes, k)->Some_0.name));
        assert(list[p] == before[p]);
    }
}

/// The copies of a tree, as a map.
pub open spec fn copy_map(g: GraphModel, nodes: Seq<Seq<char>>, importer: Seq<char>) -> Map<
    Seq<char>,
    Seq<char>,
> {
    put_all(Map::empty(), copies_of(g, nodes, importer))
}

/// The links of a tree, as a map.
pub open spec fn link_map(
    g: GraphModel,
    nodes: Seq<Seq<char>>,
    entries: Table<EntryModel>,
    importer: Seq<char>,
) -> Map<Seq<char>, Seq<char>> {
    put_all(Map::empty(), links_of(g, nodes, entries, importer))
}

proof fn package_is_in_copies(
    g: GraphModel,
    nodes: Seq<Seq<char>>,
    importer: Seq<char>,
    k: Seq<char>,
)
    requires
        names_increase(nodes),
        reaches(g, nodes, importer, k),
        lookup(g.nodes, k) is Some,
    ensures
        copy_map(g, nodes, importer).contains_key(
            store_text(k, lookup(g.nodes, k)->Some_0.name),
        ),
{
    let reach = reach_list(g, nodes, importer);
    reach_list_is_exact(g, nodes, importer);
    assert(reach.contains(k));
    assert(reach.take(reach.len() as int) =~= reach);
    reached_is_copied(g, reach, reach.len() as int, k);
    put_all_members(
        Map::<Seq<char>, Seq<char>>::empty(),
        copies_of(g, nodes, importer),
        store_text(k, lookup(g.nodes, k)->Some_0.name),
    );
}

proof fn entry_bins_stay_inside(entries: Table<EntryModel>, k: Seq<char>, j: int)
    requires
        bins_stay_inside(entries),
        0 <= j < bins_under(entries, k).len(),
    ensures
        !bins_under(entries, k)[j].0.contains('/'),
        never_climbs(bins_under(entries, k)[j].1),
{
    let i = key_index(entries, k);
    assert(has_key(entries, k));
    assert(entries[i].1.bin[j] == bins_under(entries, k)[j]);
}

proof fn edge_links_are_sound(
    g: GraphModel,
    nodes: Seq<Seq<char>>,
    entries: Table<EntryModel>,
    importer: Seq<char>,
    key: Seq<char>,
    n: int,
)
    requires
        names_increase(nodes),
        names_are_plain(g, nodes, importer),
        bins_stay_inside(entries),
        reaches(g, nodes, importer, key),
        lookup(g.nodes, key) is Some,
        0 <= n <= lookup(g.nodes, key)->Some_0.edges.len(),
    ensures
        forall|i: int|
            0 <= i < edge_links(
                g,
                nodes,
                entries,
                key,
                lookup(g.nodes, key)->Some_0.edges,
                n,
            ).len() ==> link_is_sound(
                copy_map(g, nodes, importer),
                #[trigger] edge_links(
                    g,
                    nodes,
                    entries,
                    key,
                    lookup(g.nodes, key)->Some_0.edges,
                    n,
                )[i],
            ),
    decreases n,
{
    let edges = lookup(g.nodes, key)->Some_0.edges;
    let copies = copy_map(g, nodes, importer);
    let list = edge_links(g, nodes, entries, key, edges, n);
    if n > 0 {
        let before = edge_links(g, nodes, entries, key, edges, n - 1);
        edge_links_are_sound(g, nodes, entries, importer, key, n - 1);
        let e = edges[n - 1];
        if lookup(g.nodes, e.target) is Some && nodes.contains(e.target) {
            let dep = lookup(g.nodes, e.target)->Some_0;
            let bins = bins_under(entries, e.target);
            let home = store_text(e.target, dep.name);
            assert(lookup(g.nodes, key)->Some_0.edges[n - 1].target == e.target);
            assert(is_step(g, nodes, key, e.target));
            walk_extends(g, nodes, importer, key, e.target);
            package_is_in_copies(g, nodes, importer, e.target);
            assert forall|i: int| 0 <= i < list.len() implies link_is_sound(copies, #[trigger] list[i]) by {
                if i < before.len() {
                    assert(list[i] == before[i]);
                } else if i == before.len() {
                    assert(list[i] == sibling_link(key, e, dep));
                    sibling_resolves(key, e, dep);
                    assert(copies.contains_key(home));
                } else {
                    let j = i - before.len() - 1;
                    assert(list[i] == sibling_bins(entries, key, e, dep)[j]);
                    entry_bins_stay_inside(entries, e.target, j);
                    sibling_bin_leads_home(key, e, dep, bins[j].0);
                    bin_lands(
                        copies,
                        ".pnpm/"@ + target_text(key) + "/node_modules/.bin/"@ + bins[j].0,
                        climb_text(3) + target_text(e.target) + "/node_modules/"@ + dep.name,
                        home,
                        bins[j].1,
                    );
                }
            }
        }
    }
}

proof fn node_links_are_sound(
    g: GraphModel,
    nodes: Seq<Seq<char>>,
    entries: Table<EntryModel>,
    importer: Seq<char>,
    n: int,
)
    requires
        names_increase(nodes),
        names_are_plain(g, nodes, importer),
        bins_stay_inside(entries),
        0 <= n <= reach_list(g, nodes, importer).len(),
    ensures
        forall|i: int|
            0 <= i < node_links(g, nodes, entries, reach_list(g, nodes, importer), n).len()
                ==> link_is_sound(
                copy_map(g, nodes, importer),
                #[trigger] node_links(g, nodes, entries, reach_list(g, nodes, importer), n)[i],
            ),
    decreases n,
{
    if n > 0 {
        let reach = reach_list(g, nodes, importer);
        let list = node_links(g, nodes, entries, reach, n);
        let before = node_links(g, nodes, entries, reach, n - 1);
        node_links_are_sound(g, nodes, entries, importer, n - 1);
        let k = reach[n - 1];
        reach_list_is_exact(g, nodes, importer);
        assert(reach.contains(k));
        if lookup(g.nodes, k) is Some {
            let edges = lookup(g.nodes, k)->Some_0.edges;
            edge_links_are_sound(g, nodes, entries, importer, k, edges.len() as int);
            let own = edge_links(g, nodes, entries, k, edges, edges.len() as int);
            assert forall|i: int| 0 <= i < list.len() implies link_is_sound(copy_map(g, nodes, importer), #[trigger] list[i]) by {
                if i < before.len() {
                    assert(list[i] == before[i]);
                } else {
                    assert(list[i] == own[i - before.len()]);
                }
            }
        }
    }
}

proof fn root_links_are_sound(
    g: GraphModel,
    nodes: Seq<Seq<char>>,
    entries: Table<EntryModel>,
    importer: Seq<char>,
    n: int,
)
    requires
        names_increase(nodes),
        names_are_plain(g, nodes, importer),
        bins_stay_inside(entries),
        0 <= n <= g.roots.len(),
    ensures
        forall|i: int|
            0 <= i < root_links(g, entries, importer, reach_list(g, nodes, importer), n).len()
                ==> link_is_sound(
                copy_map(g, nodes, importer),
                #[trigger] root_links(g, entries, importer, reach_list(g, nodes, importer), n)[i],
            ),
    decreases n,
{
    if n > 0 {
        let reach = reach_list(g, nodes, importer);
        let copies = copy_map(g, nodes, importer);
        let list = root_links(g, entries, importer, reach, n);
        let before = root_links(g, entries, importer, reach, n - 1);
        root_links_are_sound(g, nodes, entries, importer, n - 1);
        reach_list_is_exact(g, nodes, importer);
        let root = g.roots[n - 1];
        if root.importer == importer && root.target is Some && reach.contains(root.target->Some_0) {
            let key = root.target->Some_0;
            if lookup(g.nodes, key) is Some {
                let node = lookup(g.nodes, key)->Some_0;
                let bins = bins_under(entries, key);
                let home = store_text(key, node.name);
                package_is_in_copies(g, nodes, importer, key);
                assert forall|i: int| 0 <= i < list.len() implies link_is_sound(copies, #[trigger] list[i]) by {
                    if i < before.len() {
                        assert(list[i] == before[i]);
                    } else if i == before.len() {
                        assert(list[i] == top_link(root.link_name, key, node));
                        top_resolves(root.link_name, key, node);
                        assert(copies.contains_key(home));
                    } else {
                        let j = i - before.len() - 1;
                        assert(list[i] == top_bins(entries, key, node)[j]);
                        entry_bins_stay_inside(entries, key, j);
                        top_bin_leads_home(key, node, bins[j].0);
                        bin_lands(
                            copies,
                            ".bin/"@ + bins[j].0,
                            climb_text(1) + home,
                            home,
                            bins[j].1,
                        );
                    }
                }
            }
        }
    }
}

/// No link dangles: every link of a tree resolves, without climbing above the
/// root, to a package that is copied into the tree or to a file inside one.
pub proof fn no_link_dangles(
    g: GraphModel,
    nodes: Seq<Seq<char>>,
    entries: Table<EntryModel>,
    importer: Seq<char>,
    dest: Seq<char>,
)
    requires
        names_increase(nodes),
        names_are_plain(g, nodes, importer),
        bins_stay_inside(entries),
        link_map(g, nodes, entries, importer).contains_key(dest),
    ensures
        link_is_sound(
            copy_map(g, nodes, importer),
            (dest, link_map(g, nodes, entries, importer)[dest]),
        ),
{
    let reach = reach_list(g, nodes, importer);
    let a = node_links(g, nodes, entries, reach, reach.len() as int);
    let b = root_links(g, entries, importer, reach, g.roots.len() as int);
    let all = links_of(g, nodes, entries, importer);
    let pair = (dest, link_map(g, nodes, entries, importer)[dest]);
    put_all_members(Map::<Seq<char>, Seq<char>>::empty(), all, dest);
    node_links_are_sound(g, nodes, entries, importer, reach.len() as int);
    root_links_are_sound(g, nodes, entries, importer, g.roots.len() as int);
    let i = all.index_of(pair);
    if i < a.len() {
        assert(all[i] == a[i]);
    } else {
        assert(all[i] == b[i - a.len()]);
    }
}

/// A package that does not survive, or that nothing the importer asks for leads
/// to, is not copied into the tree.
pub proof fn only_reachable_packages_are_copied(
    g: GraphModel,
    nodes: Seq<Seq<char>>,
    importer: Seq<char>,
    dest: Seq<char>,
)
    requires
        names_increase(nodes),
        copy_map(g, nodes, importer).contains_key(dest),
    ensures
        reaches(g, nodes, importer, copy_map(g, nodes, importer)[dest]),
        nodes.contains(copy_map(g, nodes, importer)[dest]),
{
    let reach = reach_list(g, nodes, importer);
    let list = copies_of(g, nodes, importer);
    let k = copy_map(g, nodes, importer)[dest];
    put_all_members(Map::<Seq<char>, Seq<char>>::empty(), list, dest);
    copied_are_reached(g, reach, reach.len() as int);
    let i = list.index_of((dest, k));
    assert(reach.contains(list[i].1));
    reach_list_is_exact(g, nodes, importer);
    reached_survives(g, nodes, importer, k);
}

proof fn copied_are_reached(g: GraphModel, reach: Seq<Seq<char>>, n: int)
    requires
        0 <= n <= reach.len(),
    ensures
        forall|i: int|
            0 <= i < copy_list(g, reach, n).len() ==> reach.contains(
                (#[trigger] copy_list(g, reach, n)[i]).1,
            ),
    decreases n,
{
    if n > 0 {
        copied_are_reached(g, reach, n - 1);
        let list = copy_list(g, reach, n);
        let before = copy_list(g, reach, n - 1);
        assert(reach.contains(reach[n - 1]));
        assert forall|i: int| 0 <= i < list.len() implies reach.contains((#[trigger] list[i]).1) by {
            if i < before.len() {
                assert(list[i] == before[i]);
            }
        }
    }
}

proof fn copies_stand_in_the_store(g: GraphModel, reach: Seq<Seq<char>>, n: int)
    requires
        0 <= n <= reach.len(),
    ensures
        forall|i: int|
            0 <= i < copy_list(g, reach, n).len() ==> {
                let (dest, k) = #[trigger] copy_list(g, reach, n)[i];
                &&& lookup(g.nodes, k) is Some
                &&& dest == store_text(k, lookup(g.nodes, k)->Some_0.name)
            },
    decreases n,
{
    if n > 0 {
        copies_stand_in_the_store(g, reach, n - 1);
        let list = copy_list(g, reach, n);
        let before = copy_list(g, reach, n - 1);
        assert forall|i: int| 0 <= i < list.len() implies {
            let (dest, k) = #[trigger] list[i];
            &&& lookup(g.nodes, k) is Some
            &&& dest == store_text(k, lookup(g.nodes, k)->Some_0.name)
        } by {
            if i < before.len() {
                assert(list[i] == before[i]);
            }
        }
    }
}

/// A directory in the store tells which target name it belongs to.
proof fn store_tells_the_target(a: Seq<char>, m: Seq<char>, b: Seq<char>, n: Seq<char>)
    requires
        store_text(a, m) == store_text(b, n),
    ensures
        target_text(a) == target_text(b),
{
    let x = target_text(a);
    let y = target_text(b);
    let s = store_text(a, m);
    let skip = ".pnpm/"@.len() as int;
    reveal_strlit("/node_modules/");
    target_name_has_no_slash(a);
    target_name_has_no_slash(b);
    assert(s[skip + x.len()] == '/');
    assert(s[skip + y.len()] == '/');
    if x.len() < y.len() {
        assert(y[x.len() as int] == s[skip + x.len()]);
    }
    if y.len() < x.len() {
        assert(x[y.len() as int] == s[skip + y.len()]);
    }
    assert(x =~= s.subrange(skip, skip + x.len()));
    assert(y =~= s.subrange(skip, skip + y.len()));
}

/// No two packages share a target name.
pub open spec fn targets_are_distinct(g: GraphModel) -> bool {
    forall|a: Seq<char>, b: Seq<char>|
        #[trigger] has_key(g.nodes, a) && #[trigger] has_key(g.nodes, b) && a != b
            ==> target_text(a) != target_text(b)
}

/// No two packages of a graph that was built share a target name.
pub proof fn built_targets_are_distinct(lock: LockfileModel)
    requires
        graph_of(lock) is Ok,
    ensures
        targets_are_distinct(graph_of(lock)->Ok_0),
{
    let nodes = graph_of(lock)->Ok_0.nodes;
    target_names_are_unique(lock);
    assert forall|a: Seq<char>, b: Seq<char>|
        #[trigger] has_key(nodes, a) && #[trigger] has_key(nodes, b) && a != b implies target_text(a)
        != target_text(b) by {
        let i = key_index(nodes, a);
        let j = key_index(nodes, b);
        assert(nodes[i].1.target_name == target_text(a));
        assert(nodes[j].1.target_name == target_text(b));
        if i < j {
            assert(nodes[i].1.target_name != nodes[j].1.target_name);
        } else {
            assert(nodes[j].1.target_name != nodes[i].1.target_name);
        }
    }
}

/// Every package that the importer's roots lead to is copied into the tree, each to
/// its own directory in the store.
pub proof fn reached_packages_are_copied(
    g: GraphModel,
    nodes: Seq<Seq<char>>,
    importer: Seq<char>,
    k: Seq<char>,
)
    requires
        names_increase(nodes),
        targets_are_distinct(g),
        reaches(g, nodes, importer, k),
        lookup(g.nodes, k) is Some,
    ensures
        ({
            let dest = store_text(k, lookup(g.nodes, k)->Some_0.name);
            &&& copy_map(g, nodes, importer).contains_key(dest)
            &&& copy_map(g, nodes, importer)[dest] == k
        }),
{
    let reach = reach_list(g, nodes, importer);
    let list = copies_of(g, nodes, importer);
    let dest = store_text(k, lookup(g.nodes, k)->Some_0.name);
    package_is_in_copies(g, nodes, importer, k);
    put_all_members(Map::<Seq<char>, Seq<char>>::empty(), list, dest);
    let v = copy_map(g, nodes, importer)[dest];
    copies_stand_in_the_store(g, reach, reach.len() as int);
    let i = list.index_of((dest, v));
    assert(list[i] == (dest, v));
    store_tells_the_target(k, lookup(g.nodes, k)->Some_0.name, v, lookup(g.nodes, v)->Some_0.name);
    assert(has_key(g.nodes, k));
    assert(has_key(g.nodes, v));
}

proof fn edge_is_linked(
    g: GraphModel,
    nodes: Seq<Seq<char>>,
    entries: Table<EntryModel>,
    key: Seq<char>,
    edges: Seq<EdgeModel>,
    n: int,
    j: int,
)
    requires
        0 <= j < n <= edges.len(),
        nodes.contains(edges[j].target),
        lookup(g.nodes, edges[j].target) is Some,
    ensures
        edge_links(g, nodes, entries, key, edges, n).contains(
            sibling_link(key, edges[j], lookup(g.nodes, edges[j].target)->Some_0),
        ),
    decreases n,
{
    let list = edge_links(g, nodes, entries, key, edges, n);
    let before = edge_links(g, nodes, entries, key, edges, n - 1);
    let link = sibling_link(key, edges[j], lookup(g.nodes, edges[j].target)->Some_0);
    if j == n - 1 {
        assert(list[before.len() as int] == link);
    } else {
        edge_is_linked(g, nodes, entries, key, edges, n - 1, j);
        let p = before.index_of(link);
        assert(list[p] == link);
    }
}

proof fn node_is_linked(
    g: GraphModel,
    nodes: Seq<Seq<char>>,
    entries: Table<EntryModel>,
    reach: Seq<Seq<char>>,
    n: int,
    i: int,
    link: (Seq<char>, Seq<char>),
)
    requires
        0 <= i < n <= reach.len(),
        lookup(g.nodes, reach[i]) is Some,
        edge_links(
            g,
            nodes,
            entries,
            reach[i],
            lookup(g.nodes, reach[i])->Some_0.edges,
            lookup(g.nodes, reach[i])->Some_0.edges.len() as int,
        ).contains(link),
    ensures
        node_links(g, nodes, entries, reach, n).contains(link),
    decreases n,
{
    let list = node_links(g, nodes, entries, reach, n);
    let before = node_links(g, nodes, entries, reach, n - 1);
    if i == n - 1 {
        let edges = lookup(g.nodes, reach[i])->Some_0.edges;
        let own = edge_links(g, nodes, entries, reach[i], edges, edges.len() as int);
        assert(list[before.len() + own.index_of(link)] == link);
    } else {
        node_is_linked(g, nodes, entries, reach, n - 1, i, link);
        assert(list[before.index_of(link)] == link);
    }
}

/// What stands in a list under a key that it holds once stands in the map.
proof fn sole_link_stays(list: Table<Seq<char>>, link: (Seq<char>, Seq<char>))
    requires
        list.contains(link),
    ensures
        put_all(Map::empty(), list).contains_key(link.0),
        (forall|i: int|
            0 <= i < list.len() && (#[trigger] list[i]).0 == link.0 ==> list[i] == link)
            ==> put_all(Map::empty(), list)[link.0] == link.1,
{
    let p = list.index_of(link);
    assert(list[p].0 == link.0);
    assert(has_key(list, link.0));
    put_all_members(Map::<Seq<char>, Seq<char>>::empty(), list, link.0);
    let found = (link.0, put_all(Map::empty(), list)[link.0]);
    let i = list.index_of(found);
    assert(list[i] == found);
}

/// Every dependency of a package in the tree that survives is linked beside that
/// package, under the name it is asked for, and the link leads to the dependency's
/// own directory. Where the tree has another link in the same place, the later one
/// stays.
pub proof fn dependencies_are_linked(
    g: GraphModel,
    nodes: Seq<Seq<char>>,
    entries: Table<EntryModel>,
    importer: Seq<char>,
    k: Seq<char>,
    j: int,
)
    requires
        names_increase(nodes),
        names_are_plain(g, nodes, importer),
        reaches(g, nodes, importer, k),
        lookup(g.nodes, k) is Some,
        0 <= j < lookup(g.nodes, k)->Some_0.edges.len(),
        nodes.contains(lookup(g.nodes, k)->Some_0.edges[j].target),
        lookup(g.nodes, lookup(g.nodes, k)->Some_0.edges[j].target) is Some,
    ensures
        ({
            let e = lookup(g.nodes, k)->Some_0.edges[j];
            let dep = lookup(g.nodes, e.target)->Some_0;
            let link = sibling_link(k, e, dep);
            let links = links_of(g, nodes, entries, importer);
            &&& link_map(g, nodes, entries, importer).contains_key(link.0)
            &&& link.0 == store_text(k, e.link_name)
            &&& resolve_link(link.0, link.1) == Some(store_text(e.target, dep.name))
            &&& (forall|i: int|
                0 <= i < links.len() && (#[trigger] links[i]).0 == link.0 ==> links[i] == link)
                ==> link_map(g, nodes, entries, importer)[link.0] == link.1
        }),
{
    let edges = lookup(g.nodes, k)->Some_0.edges;
    let e = edges[j];
    let dep = lookup(g.nodes, e.target)->Some_0;
    let link = sibling_link(k, e, dep);
    let reach = reach_list(g, nodes, importer);
    let links = links_of(g, nodes, entries, importer);
    let a = node_links(g, nodes, entries, reach, reach.len() as int);
    reach_list_is_exact(g, nodes, importer);
    assert(reach.contains(k));
    edge_is_linked(g, nodes, entries, k, edges, edges.len() as int, j);
    node_is_linked(g, nodes, entries, reach, reach.len() as int, reach.index_of(k), link);
    assert(links[a.index_of(link)] == link);
    sole_link_stays(links, link);
    assert(lookup(g.nodes, k)->Some_0.edges[j].target == e.target);
    assert(is_step(g, nodes, k, e.target));
    walk_extends(g, nodes, importer, k, e.target);
    sibling_resolves(k, e, dep);
}

proof fn root_is_linked(
    g: GraphModel,
    entries: Table<EntryModel>,
    importer: Seq<char>,
    reach: Seq<Seq<char>>,
    n: int,
    j: int,
)
    requires
        0 <= j < n <= g.roots.len(),
        g.roots[j].importer == importer,
        g.roots[j].target is Some,
        reach.contains(g.roots[j].target->Some_0),
        lookup(g.nodes, g.roots[j].target->Some_0) is Some,
    ensures
        root_links(g, entries, importer, reach, n).contains(
            top_link(
                g.roots[j].link_name,
                g.roots[j].target->Some_0,
                lookup(g.nodes, g.roots[j].target->Some_0)->Some_0,
            ),
        ),
    decreases n,
{
    let key = g.roots[j].target->Some_0;
    let link = top_link(g.roots[j].link_name, key, lookup(g.nodes, key)->Some_0);
    let list = root_links(g, entries, importer, reach, n);
    let before = root_links(g, entries, importer, reach, n - 1);
    if j == n - 1 {
        assert(list[before.len() as int] == link);
    } else {
        root_is_linked(g, entries, importer, reach, n - 1, j);
        assert(list[before.index_of(link)] == link);
    }
}

/// Every package that an importer asks for, and that survives, is linked at the top
/// of its tree, under the name it is asked for, and the link leads to the package's
/// own directory. Where it asks for two under one name, the later link stays.
pub proof fn direct_dependencies_are_linked(
    g: GraphModel,
    nodes: Seq<Seq<char>>,
    entries: Table<EntryModel>,
    importer: Seq<char>,
    j: int,
)
    requires
        names_increase(nodes),
        names_are_plain(g, nodes, importer),
        0 <= j < g.roots.len(),
        g.roots[j].importer == importer,
        g.roots[j].target is Some,
        nodes.contains(g.roots[j].target->Some_0),
        lookup(g.nodes, g.roots[j].target->Some_0) is Some,
    ensures
        ({
            let key = g.roots[j].target->Some_0;
            let node = lookup(g.nodes, key)->Some_0;
            let link = top_link(g.roots[j].link_name, key, node);
            let links = links_of(g, nodes, entries, importer);
            &&& link_map(g, nodes, entries, importer).contains_key(g.roots[j].link_name)
            &&& resolve_link(link.0, link.1) == Some(store_text(key, node.name))
            &&& (forall|i: int|
                0 <= i < links.len() && (#[trigger] links[i]).0 == link.0 ==> links[i] == link)
                ==> link_map(g, nodes, entries, importer)[link.0] == link.1
        }),
{
    let key = g.roots[j].target->Some_0;
    let node = lookup(g.nodes, key)->Some_0;
    let link = top_link(g.roots[j].link_name, key, node);
    let reach = reach_list(g, nodes, importer);
    let links = links_of(g, nodes, entries, importer);
    let a = node_links(g, nodes, entries, reach, reach.len() as int);
    let b = root_links(g, entries, importer, reach, g.roots.len() as int);
    assert(is_start(g, nodes, importer, key));
    start_is_reached(g, nodes, importer, key);
    reach_list_is_exact(g, nodes, importer);
    root_is_linked(g, entries, importer, reach, g.roots.len() as int, j);
    assert(links[a.len() + b.index_of(link)] == link);
    sole_link_stays(links, link);
    top_resolves(g.roots[j].link_name, key, node);
}

// --- What every link is for ---------------------------------------------------------------

/// The importer asks for this package by its `j`-th root, and the package survives.
pub open spec fn asks_for(
    g: GraphModel,
    nodes: Seq<Seq<char>>,
    importer: Seq<char>,
    j: int,
    key: Seq<char>,
) -> bool {
    &&& 0 <= j < g.roots.len()
    &&& g.roots[j].importer == importer
    &&& g.roots[j].target == Some(key)
    &&& nodes.contains(key)
    &&& lookup(g.nodes, key) is Some
}

/// A package that the importer's roots lead to has this dependency, which survives.
pub open spec fn depends_on(
    g: GraphModel,
    nodes: Seq<Seq<char>>,
    importer: Seq<char>,
    k: Seq<char>,
    e: EdgeModel,
) -> bool {
    &&& reaches(g, nodes, importer, k)
    &&& lookup(g.nodes, k) is Some
    &&& lookup(g.nodes, k)->Some_0.edges.contains(e)
    &&& nodes.contains(e.target)
    &&& lookup(g.nodes, e.target) is Some
}

/// The package table records this command of a package: its name and its path.
pub open spec fn records_bin(
    entries: Table<EntryModel>,
    key: Seq<char>,
    name: Seq<char>,
    path: Seq<char>,
) -> bool {
    lookup(entries, key) is Some && lookup(entries, key)->Some_0.bin.contains((name, path))
}

/// A link at `dest` with this target leads to where the package is copied to.
pub open spec fn leads_home(
    copies: Map<Seq<char>, Seq<char>>,
    key: Seq<char>,
    dest: Seq<char>,
    target: Seq<char>,
) -> bool {
    &&& resolve_link(dest, target) is Some
    &&& copies.contains_key(resolve_link(dest, target)->Some_0)
    &&& copies[resolve_link(dest, target)->Some_0] == key
}

/// A link at `dest` with this target leads by `path` from where the package is copied to.
pub open spec fn leads_into(
    copies: Map<Seq<char>, Seq<char>>,
    key: Seq<char>,
    path: Seq<char>,
    dest: Seq<char>,
    target: Seq<char>,
) -> bool {
    exists|package: Seq<char>|
        target == package + seq!['/'] + path && #[trigger] leads_home(copies, key, dest, package)
}

/// The link is there for a package that the importer asks for, under the name it asks by.
pub open spec fn links_a_root(
    g: GraphModel,
    nodes: Seq<Seq<char>>,
    importer: Seq<char>,
    dest: Seq<char>,
    target: Seq<char>,
) -> bool {
    exists|j: int, key: Seq<char>|
        #[trigger] asks_for(g, nodes, importer, j, key) && dest == g.roots[j].link_name
            && leads_home(copy_map(g, nodes, importer), key, dest, target)
}

/// The link is there for a command of a package that the importer asks for: it stands in
/// `.bin/` under the command's name and leads to the command's own path.
pub open spec fn links_a_root_bin(
    g: GraphModel,
    nodes: Seq<Seq<char>>,
    entries: Table<EntryModel>,
    importer: Seq<char>,
    dest: Seq<char>,
    target: Seq<char>,
) -> bool {
    exists|j: int, key: Seq<char>, name: Seq<char>, path: Seq<char>|
        #[trigger] asks_for(g, nodes, importer, j, key) && #[trigger] records_bin(
            entries,
            key,
            name,
            path,
        ) && dest == ".bin/"@ + name && leads_into(
            copy_map(g, nodes, importer),
            key,
            path,
            dest,
            target,
        )
}

/// The link is there for a dependency of a package in the tree, beside that package, under
/// the dependency's link name.
pub open spec fn links_a_dependency(
    g: GraphModel,
    nodes: Seq<Seq<char>>,
    importer: Seq<char>,
    dest: Seq<char>,
    target: Seq<char>,
) -> bool {
    exists|k: Seq<char>, e: EdgeModel|
        #[trigger] depends_on(g, nodes, importer, k, e) && dest == ".pnpm/"@ + target_text(k)
            + "/node_modules/"@ + e.link_name && leads_home(
            copy_map(g, nodes, importer),
            e.target,
            dest,
            target,
        )
}

/// The link is there for a command of such a dependency: it stands in the `.bin/` beside
/// the package, under the command's name, and leads to the command's own path.
pub open spec fn links_a_dependency_bin(
    g: GraphModel,
    nodes: Seq<Seq<char>>,
    entries: Table<EntryModel>,
    importer: Seq<char>,
    dest: Seq<char>,
    target: Seq<char>,
) -> bool {
    exists|k: Seq<char>, e: EdgeModel, name: Seq<char>, path: Seq<char>|
        #[trigger] depends_on(g, nodes, importer, k, e) && #[trigger] records_bin(
            entries,
            e.target,
            name,
            path,
        ) && dest == ".pnpm/"@ + target_text(k) + "/node_modules/.bin/"@ + name && leads_into(
            copy_map(g, nodes, importer),
            e.target,
            path,
            dest,
            target,
        )
}

/// The link is there for one of these four.
pub open spec fn link_is_explained(
    g: GraphModel,
    nodes: Seq<Seq<char>>,
    entries: Table<EntryModel>,
    importer: Seq<char>,
    link: (Seq<char>, Seq<char>),
) -> bool {
    ||| links_a_root(g, nodes, importer, link.0, link.1)
    ||| links_a_root_bin(g, nodes, entries, importer, link.0, link.1)
    ||| links_a_dependency(g, nodes, importer, link.0, link.1)
    ||| links_a_dependency_bin(g, nodes, entries, importer, link.0, link.1)
}

/// Every command in the package table has a name without `/`.
pub open spec fn bins_are_names(entries: Table<EntryModel>) -> bool {
    forall|i: int, j: int|
        0 <= i < entries.len() && 0 <= j < entries[i].1.bin.len() ==> !(
        #[trigger] entries[i].1.bin[j]).0.contains('/')
}

proof fn bin_is_recorded(entries: Table<EntryModel>, key: Seq<char>, j: int)
    requires
        bins_are_names(entries),
        0 <= j < bins_under(entries, key).len(),
    ensures
        records_bin(
            entries,
            key,
            bins_under(entries, key)[j].0,
            bins_under(entries, key)[j].1,
        ),
        !bins_under(entries, key)[j].0.contains('/'),
{
    let i = key_index(entries, key);
    let bins = bins_under(entries, key);
    assert(has_key(entries, key));
    assert(entries[i].1.bin[j] == bins[j]);
    assert(lookup(entries, key)->Some_0.bin[j] == (bins[j].0, bins[j].1));
}

/// A link that leads to a package's own directory leads home.
proof fn home_is_a_copy(
    g: GraphModel,
    nodes: Seq<Seq<char>>,
    importer: Seq<char>,
    key: Seq<char>,
    dest: Seq<char>,
    target: Seq<char>,
)
    requires
        names_increase(nodes),
        targets_are_distinct(g),
        reaches(g, nodes, importer, key),
        lookup(g.nodes, key) is Some,
        resolve_link(dest, target) == Some(
            store_text(key, lookup(g.nodes, key)->Some_0.name),
        ),
    ensures
        leads_home(copy_map(g, nodes, importer), key, dest, target),
{
    reached_packages_are_copied(g, nodes, importer, key);
}

proof fn bin_leads_into(
    g: GraphModel,
    nodes: Seq<Seq<char>>,
    importer: Seq<char>,
    key: Seq<char>,
    dest: Seq<char>,
    package: Seq<char>,
    path: Seq<char>,
)
    requires
        names_increase(nodes),
        targets_are_distinct(g),
        reaches(g, nodes, importer, key),
        lookup(g.nodes, key) is Some,
        follow(split_on(dest, '/').drop_last(), split_on(package, '/')) == Some(
            split_on(store_text(key, lookup(g.nodes, key)->Some_0.name), '/'),
        ),
    ensures
        leads_into(
            copy_map(g, nodes, importer),
            key,
            path,
            dest,
            package + "/"@ + path,
        ),
{
    let home = store_text(key, lookup(g.nodes, key)->Some_0.name);
    reveal_strlit("/");
    assert("/"@ =~= seq!['/']);
    join_split(home, '/');
    home_is_a_copy(g, nodes, importer, key, dest, package);
}

proof fn edge_links_are_explained(
    g: GraphModel,
    nodes: Seq<Seq<char>>,
    entries: Table<EntryModel>,
    importer: Seq<char>,
    key: Seq<char>,
    n: int,
)
    requires
        names_increase(nodes),
        names_are_plain(g, nodes, importer),
        targets_are_distinct(g),
        bins_are_names(entries),
        reaches(g, nodes, importer, key),
        lookup(g.nodes, key) is Some,
        0 <= n <= lookup(g.nodes, key)->Some_0.edges.len(),
    ensures
        forall|i: int|
            0 <= i < edge_links(
                g,
                nodes,
                entries,
                key,
                lookup(g.nodes, key)->Some_0.edges,
                n,
            ).len() ==> link_is_explained(
                g,
                nodes,
                entries,
                importer,
                #[trigger] edge_links(
                    g,
                    nodes,
                    entries,
                    key,
                    lookup(g.nodes, key)->Some_0.edges,
                    n,
                )[i],
            ),
    decreases n,
{
    let edges = lookup(g.nodes, key)->Some_0.edges;
    let list = edge_links(g, nodes, entries, key, edges, n);
    if n > 0 {
        let before = edge_links(g, nodes, entries, key, edges, n - 1);
        edge_links_are_explained(g, nodes, entries, importer, key, n - 1);
        let e = edges[n - 1];
        if lookup(g.nodes, e.target) is Some && nodes.contains(e.target) {
            let dep = lookup(g.nodes, e.target)->Some_0;
            let bins = bins_under(entries, e.target);
            assert(lookup(g.nodes, key)->Some_0.edges[n - 1].target == e.target);
            assert(is_step(g, nodes, key, e.target));
            walk_extends(g, nodes, importer, key, e.target);
            assert(edges.contains(e));
            assert(depends_on(g, nodes, importer, key, e));
            assert forall|i: int| 0 <= i < list.len() implies link_is_explained(
                g,
                nodes,
                entries,
                importer,
                #[trigger] list[i],
            ) by {
                if i < before.len() {
                    assert(list[i] == before[i]);
                } else if i == before.len() {
                    assert(list[i] == sibling_link(key, e, dep));
                    sibling_resolves(key, e, dep);
                    home_is_a_copy(g, nodes, importer, e.target, list[i].0, list[i].1);
                    assert(links_a_dependency(g, nodes, importer, list[i].0, list[i].1));
                } else {
                    let j = i - before.len() - 1;
                    assert(list[i] == sibling_bins(entries, key, e, dep)[j]);
                    bin_is_recorded(entries, e.target, j);
                    sibling_bin_leads_home(key, e, dep, bins[j].0);
                    bin_leads_into(
                        g,
                        nodes,
                        importer,
                        e.target,
                        list[i].0,
                        climb_text(3) + target_text(e.target) + "/node_modules/"@ + dep.name,
                        bins[j].1,
                    );
                    assert(links_a_dependency_bin(
                        g,
                        nodes,
                        entries,
                        importer,
                        list[i].0,
                        list[i].1,
                    ));
                }
            }
        }
    }
}

proof fn node_links_are_explained(
    g: GraphModel,
    nodes: Seq<Seq<char>>,
    entries: Table<EntryModel>,
    importer: Seq<char>,
    n: int,
)
    requires
        names_increase(nodes),
        names_are_plain(g, nodes, importer),
        targets_are_distinct(g),
        bins_are_names(entries),
        0 <= n <= reach_list(g, nodes, importer).len(),
    ensures
        forall|i: int|
            0 <= i < node_links(g, nodes, entries, reach_list(g, nodes, importer), n).len()
                ==> link_is_explained(
                g,
                nodes,
                entries,
                importer,
                #[trigger] node_links(g, nodes, entries, reach_list(g, nodes, importer), n)[i],
            ),
    decreases n,
{
    if n > 0 {
        let reach = reach_list(g, nodes, importer);
        let list = node_links(g, nodes, entries, reach, n);
        let before = node_links(g, nodes, entries, reach, n - 1);
        node_links_are_explained(g, nodes, entries, importer, n - 1);
        let k = reach[n - 1];
        reach_list_is_exact(g, nodes, importer);
        assert(reach.contains(k));
        if lookup(g.nodes, k) is Some {
            let edges = lookup(g.nodes, k)->Some_0.edges;
            edge_links_are_explained(g, nodes, entries, importer, k, edges.len() as int);
            let own = edge_links(g, nodes, entries, k, edges, edges.len() as int);
            assert forall|i: int| 0 <= i < list.len() implies link_is_explained(
                g,
                nodes,
                entries,
                importer,
                #[trigger] list[i],
            ) by {
                if i < before.len() {
                    assert(list[i] == before[i]);
                } else {
                    assert(list[i] == own[i - before.len()]);
                }
            }
        }
    }
}

proof fn root_links_are_explained(
    g: GraphModel,
    nodes: Seq<Seq<char>>,
    entries: Table<EntryModel>,
    importer: Seq<char>,
    n: int,
)
    requires
        names_increase(nodes),
        names_are_plain(g, nodes, importer),
        targets_are_distinct(g),
        bins_are_names(entries),
        0 <= n <= g.roots.len(),
    ensures
        forall|i: int|
            0 <= i < root_links(g, entries, importer, reach_list(g, nodes, importer), n).len()
                ==> link_is_explained(
                g,
                nodes,
                entries,
                importer,
                #[trigger] root_links(g, entries, importer, reach_list(g, nodes, importer), n)[i],
            ),
    decreases n,
{
    if n > 0 {
        let reach = reach_list(g, nodes, importer);
        let list = root_links(g, entries, importer, reach, n);
        let before = root_links(g, entries, importer, reach, n - 1);
        root_links_are_explained(g, nodes, entries, importer, n - 1);
        reach_list_is_exact(g, nodes, importer);
        let root = g.roots[n - 1];
        if root.importer == importer && root.target is Some && reach.contains(root.target->Some_0) {
            let key = root.target->Some_0;
            if lookup(g.nodes, key) is Some {
                let node = lookup(g.nodes, key)->Some_0;
                let bins = bins_under(entries, key);
                reached_survives(g, nodes, importer, key);
                assert(asks_for(g, nodes, importer, n - 1, key));
                assert forall|i: int| 0 <= i < list.len() implies link_is_explained(
                    g,
                    nodes,
                    entries,
                    importer,
                    #[trigger] list[i],
                ) by {
                    if i < before.len() {
                        assert(list[i] == before[i]);
                    } else if i == before.len() {
                        assert(list[i] == top_link(root.link_name, key, node));
                        top_resolves(root.link_name, key, node);
                        home_is_a_copy(g, nodes, importer, key, list[i].0, list[i].1);
                        assert(links_a_root(g, nodes, importer, list[i].0, list[i].1));
                    } else {
                        let j = i - before.len() - 1;
                        assert(list[i] == top_bins(entries, key, node)[j]);
                        bin_is_recorded(entries, key, j);
                        top_bin_leads_home(key, node, bins[j].0);
                        bin_leads_into(
                            g,
                            nodes,
                            importer,
                            key,
                            list[i].0,
                            climb_text(1) + store_text(key, node.name),
                            bins[j].1,
                        );
                        assert(links_a_root_bin(
                            g,
                            nodes,
                            entries,
                            importer,
                            list[i].0,
                            list[i].1,
                        ));
                    }
                }
            }
        }
    }
}

/// Every link of a tree is there for something: for a package that the importer asks for,
/// for a dependency of a package in the tree, or for one command of either. It stands under
/// the name of that, and leads to where the package is copied to, or to the very path that
/// the package table records for the command of that name.
pub proof fn every_link_has_a_reason(
    g: GraphModel,
    nodes: Seq<Seq<char>>,
    entries: Table<EntryModel>,
    importer: Seq<char>,
    dest: Seq<char>,
)
    requires
        names_increase(nodes),
        names_are_plain(g, nodes, importer),
        targets_are_distinct(g),
        bins_are_names(entries),
        link_map(g, nodes, entries, importer).contains_key(dest),
    ensures
        ({
            let target = link_map(g, nodes, entries, importer)[dest];
            ||| links_a_root(g, nodes, importer, dest, target)
            ||| links_a_root_bin(g, nodes, entries, importer, dest, target)
            ||| links_a_dependency(g, nodes, importer, dest, target)
            ||| links_a_dependency_bin(g, nodes, entries, importer, dest, target)
        }),
{
    let reach = reach_list(g, nodes, importer);
    let a = node_links(g, nodes, entries, reach, reach.len() as int);
    let b = root_links(g, entries, importer, reach, g.roots.len() as int);
    let all = links_of(g, nodes, entries, importer);
    let pair = (dest, link_map(g, nodes, entries, importer)[dest]);
    put_all_members(Map::<Seq<char>, Seq<char>>::empty(), all, dest);
    node_links_are_explained(g, nodes, entries, importer, reach.len() as int);
    root_links_are_explained(g, nodes, entries, importer, g.roots.len() as int);
    let i = all.index_of(pair);
    if i < a.len() {
        assert(all[i] == a[i]);
    } else {
        assert(all[i] == b[i - a.len()]);
    }
}

/// A link that leads into a package by a plain path leads to that path below the place
/// where the package is copied to.
pub proof fn a_link_into_a_package_leads_to_the_file(
    g: GraphModel,
    nodes: Seq<Seq<char>>,
    importer: Seq<char>,
    key: Seq<char>,
    path: Seq<char>,
    dest: Seq<char>,
    target: Seq<char>,
)
    requires
        leads_into(copy_map(g, nodes, importer), key, path, dest, target),
        is_plain_path(path),
    ensures
        exists|home: Seq<char>| #[trigger]
            copy_map(g, nodes, importer).contains_key(home) && copy_map(g, nodes, importer)[home]
                == key && resolve_link(dest, target) == Some(home + seq!['/'] + path),
{
    let copies = copy_map(g, nodes, importer);
    let package = choose|package: Seq<char>|
        target == package + seq!['/'] + path && #[trigger] leads_home(copies, key, dest, package);
    let home = resolve_link(dest, package)->Some_0;
    let dir = split_on(dest, '/').drop_last();
    let at = follow(dir, split_on(package, '/'))->Some_0;
    let more = split_on(path, '/');
    split_joined(package, path, '/');
    follow_concat(dir, split_on(package, '/'), more);
    follow_plain(at, more);
    join_pieces(at, more);
    join_split(path, '/');
    split_not_empty(path, '/');
    assert(copies.contains_key(home));
    let reach = reach_list(g, nodes, importer);
    let list = copies_of(g, nodes, importer);
    put_all_members(Map::<Seq<char>, Seq<char>>::empty(), list, home);
    copies_stand_in_the_store(g, reach, reach.len() as int);
    let i = list.index_of((home, copies[home]));
    assert(list[i].0 == home);
    reveal_strlit(".pnpm/");
    assert(home.len() > 0);
    assert(at.len() > 0);
}

proof fn join_pieces(a: Seq<Seq<char>>, b: Seq<Seq<char>>)
    requires
        b.len() > 0,
    ensures
        a.len() > 0 ==> join_with(a + b, seq!['/']) == join_with(a, seq!['/']) + seq!['/']
            + join_with(b, seq!['/']),
    decreases b.len(),
{
    if a.len() > 0 {
        let slash = seq!['/'];
        assert((a + b).drop_last() =~= a + b.drop_last());
        assert((a + b).last() == b.last());
        if b.len() == 1 {
            assert(a + b.drop_last() =~= a);
            assert(join_with(a + b, slash) =~= join_with(a, slash) + slash + join_with(b, slash));
        } else {
            join_pieces(a, b.drop_last());
            assert(join_with(a + b, slash) =~= join_with(a, slash) + slash + join_with(b, slash));
        }
    }
}

proof fn listed_is_linked(list: Table<Seq<char>>, link: (Seq<char>, Seq<char>))
    requires
        list.contains(link),
    ensures
        put_all(Map::<Seq<char>, Seq<char>>::empty(), list).contains_key(link.0),
{
    assert(list[list.index_of(link)].0 == link.0);
    assert(has_key(list, link.0));
    put_all_members(Map::<Seq<char>, Seq<char>>::empty(), list, link.0);
}

proof fn edge_bin_is_linked(
    g: GraphModel,
    nodes: Seq<Seq<char>>,
    entries: Table<EntryModel>,
    key: Seq<char>,
    edges: Seq<EdgeModel>,
    n: int,
    j: int,
    b: int,
)
    requires
        0 <= j < n <= edges.len(),
        nodes.contains(edges[j].target),
        lookup(g.nodes, edges[j].target) is Some,
        0 <= b < bins_under(entries, edges[j].target).len(),
    ensures
        edge_links(g, nodes, entries, key, edges, n).contains(
            sibling_bins(
                entries,
                key,
                edges[j],
                lookup(g.nodes, edges[j].target)->Some_0,
            )[b],
        ),
    decreases n,
{
    let list = edge_links(g, nodes, entries, key, edges, n);
    let before = edge_links(g, nodes, entries, key, edges, n - 1);
    let bins = sibling_bins(entries, key, edges[j], lookup(g.nodes, edges[j].target)->Some_0);
    if j == n - 1 {
        assert(list[before.len() + 1 + b] == bins[b]);
    } else {
        edge_bin_is_linked(g, nodes, entries, key, edges, n - 1, j, b);
        assert(list[before.index_of(bins[b])] == bins[b]);
    }
}

proof fn root_bin_is_linked(
    g: GraphModel,
    entries: Table<EntryModel>,
    importer: Seq<char>,
    reach: Seq<Seq<char>>,
    n: int,
    j: int,
    b: int,
)
    requires
        0 <= j < n <= g.roots.len(),
        g.roots[j].importer == importer,
        g.roots[j].target is Some,
        reach.contains(g.roots[j].target->Some_0),
        lookup(g.nodes, g.roots[j].target->Some_0) is Some,
        0 <= b < bins_under(entries, g.roots[j].target->Some_0).len(),
    ensures
        root_links(g, entries, importer, reach, n).contains(
            top_bins(
                entries,
                g.roots[j].target->Some_0,
                lookup(g.nodes, g.roots[j].target->Some_0)->Some_0,
            )[b],
        ),
    decreases n,
{
    let key = g.roots[j].target->Some_0;
    let bins = top_bins(entries, key, lookup(g.nodes, key)->Some_0);
    let list = root_links(g, entries, importer, reach, n);
    let before = root_links(g, entries, importer, reach, n - 1);
    if j == n - 1 {
        assert(list[before.len() + 1 + b] == bins[b]);
    } else {
        root_bin_is_linked(g, entries, importer, reach, n - 1, j, b);
        assert(list[before.index_of(bins[b])] == bins[b]);
    }
}

/// Every command of every package that an importer asks for, and that survives, is linked
/// in the tree's `.bin/` under its own name, and so is every command of every dependency
/// that survives, in the `.bin/` beside each package of the tree that has the dependency.
pub proof fn every_command_is_linked(
    g: GraphModel,
    nodes: Seq<Seq<char>>,
    entries: Table<EntryModel>,
    importer: Seq<char>,
    name: Seq<char>,
    path: Seq<char>,
)
    requires
        names_increase(nodes),
    ensures
        forall|j: int, key: Seq<char>|
            #[trigger] asks_for(g, nodes, importer, j, key) && records_bin(entries, key, name, path)
                ==> link_map(g, nodes, entries, importer).contains_key(".bin/"@ + name),
        forall|k: Seq<char>, e: EdgeModel|
            #[trigger] depends_on(g, nodes, importer, k, e) && records_bin(
                entries,
                e.target,
                name,
                path,
            ) ==> link_map(g, nodes, entries, importer).contains_key(
                ".pnpm/"@ + target_text(k) + "/node_modules/.bin/"@ + name,
            ),
{
    let reach = reach_list(g, nodes, importer);
    let below = node_links(g, nodes, entries, reach, reach.len() as int);
    let top = root_links(g, entries, importer, reach, g.roots.len() as int);
    let all = links_of(g, nodes, entries, importer);
    reach_list_is_exact(g, nodes, importer);
    assert forall|j: int, key: Seq<char>|
        #[trigger] asks_for(g, nodes, importer, j, key) && records_bin(
            entries,
            key,
            name,
            path,
        ) implies link_map(g, nodes, entries, importer).contains_key(".bin/"@ + name) by {
        let bins = bins_under(entries, key);
        let b = bins.index_of((name, path));
        assert(is_start(g, nodes, importer, key));
        start_is_reached(g, nodes, importer, key);
        root_bin_is_linked(g, entries, importer, reach, g.roots.len() as int, j, b);
        let link = top_bins(entries, key, lookup(g.nodes, key)->Some_0)[b];
        assert(all[below.len() + top.index_of(link)] == link);
        listed_is_linked(all, link);
    }
    assert forall|k: Seq<char>, e: EdgeModel|
        #[trigger] depends_on(g, nodes, importer, k, e) && records_bin(
            entries,
            e.target,
            name,
            path,
        ) implies link_map(g, nodes, entries, importer).contains_key(
        ".pnpm/"@ + target_text(k) + "/node_modules/.bin/"@ + name,
    ) by {
        let bins = bins_under(entries, e.target);
        let b = bins.index_of((name, path));
        let edges = lookup(g.nodes, k)->Some_0.edges;
        let j = edges.index_of(e);
        let n = edges.len() as int;
        edge_bin_is_linked(g, nodes, entries, k, edges, n, j, b);
        let link = sibling_bins(entries, k, e, lookup(g.nodes, e.target)->Some_0)[b];
        assert(reach.contains(k));
        node_is_linked(g, nodes, entries, reach, reach.len() as int, reach.index_of(k), link);
        assert(all[below.index_of(link)] == link);
        listed_is_linked(all, link);
    }
}

proof fn root_takes_the_command(
    m: Map<Seq<char>, Seq<char>>,
    g: GraphModel,
    entries: Table<EntryModel>,
    importer: Seq<char>,
    reach: Seq<Seq<char>>,
    n: int,
    r: int,
    q: int,
)
    requires
        0 <= r < n <= g.roots.len(),
        g.roots[r].importer == importer,
        g.roots[r].target is Some,
        reach.contains(g.roots[r].target->Some_0),
        lookup(g.nodes, g.roots[r].target->Some_0) is Some,
        0 <= q < bins_under(entries, g.roots[r].target->Some_0).len(),
        keys_increase(bins_under(entries, g.roots[r].target->Some_0)),
        forall|c: int|
            r < c < n && (#[trigger] g.roots[c]).importer == importer && g.roots[c].target is Some
                ==> g.roots[c].link_name != ".bin/"@ + bins_under(
                entries,
                g.roots[r].target->Some_0,
            )[q].0 && !has_key(
                bins_under(entries, g.roots[c].target->Some_0),
                bins_under(entries, g.roots[r].target->Some_0)[q].0,
            ),
    ensures
        ({
            let key = g.roots[r].target->Some_0;
            let (name, path) = bins_under(entries, key)[q];
            let put = put_all(m, root_links(g, entries, importer, reach, n));
            &&& put.contains_key(".bin/"@ + name)
            &&& put[".bin/"@ + name] == climb_text(1) + store_text(
                key,
                lookup(g.nodes, key)->Some_0.name,
            ) + "/"@ + path
        }),
    decreases n,
{
    let key = g.roots[r].target->Some_0;
    let bins = bins_under(entries, key);
    let (name, path) = bins[q];
    let dest = ".bin/"@ + name;
    let before = root_links(g, entries, importer, reach, n - 1);
    let root = g.roots[n - 1];
    let contributes = root.importer == importer && root.target is Some && reach.contains(
        root.target->Some_0,
    ) && lookup(g.nodes, root.target->Some_0) is Some;
    if contributes {
        let k = root.target->Some_0;
        let node = lookup(g.nodes, k)->Some_0;
        let link = top_link(root.link_name, k, node);
        let more = top_bins(entries, k, node);
        let m1 = put_all(m, before);
        let m2 = m1.insert(link.0, link.1);
        put_all_push(m, before, link);
        put_all_concat(m, before.push(link), more);
        assert(put_all(m, root_links(g, entries, importer, reach, n)) == put_all(m2, more));
        if n - 1 == r {
            assert forall|j: int| q < j < more.len() implies (#[trigger] more[j]).0 != dest by {
                assert(text_lt(bins[q].0, bins[j].0));
                text_lt_irreflexive(bins[q].0);
                if more[j].0 == dest {
                    assert(more[j].0.skip(".bin/"@.len() as int) =~= bins[j].0);
                    assert(dest.skip(".bin/"@.len() as int) =~= name);
                }
            }
            put_all_last(m2, more, q);
        } else {
            root_takes_the_command(m, g, entries, importer, reach, n - 1, r, q);
            let others = bins_under(entries, k);
            assert(root.link_name != dest && !has_key(others, name));
            assert(!has_key(more, dest)) by {
                if has_key(more, dest) {
                    let j = key_index(more, dest);
                    assert(more[j].0.skip(".bin/"@.len() as int) =~= others[j].0);
                    assert(dest.skip(".bin/"@.len() as int) =~= name);
                    assert(others[j].0 == name);
                }
            }
            put_all_leaves(m2, more, dest);
        }
    } else {
        assert(root_links(g, entries, importer, reach, n) == before);
        root_takes_the_command(m, g, entries, importer, reach, n - 1, r, q);
    }
}

/// Where several packages that an importer asks for have a command of one name, the last
/// of them has it: the link in the tree's `.bin/` leads to that package's own path.
pub proof fn the_last_root_has_the_command(
    g: GraphModel,
    nodes: Seq<Seq<char>>,
    entries: Table<EntryModel>,
    importer: Seq<char>,
    r: int,
    key: Seq<char>,
    name: Seq<char>,
    path: Seq<char>,
)
    requires
        names_increase(nodes),
        asks_for(g, nodes, importer, r, key),
        records_bin(entries, key, name, path),
        keys_increase(lookup(entries, key)->Some_0.bin),
        forall|c: int|
            r < c < g.roots.len() && (#[trigger] g.roots[c]).importer == importer
                && g.roots[c].target is Some ==> g.roots[c].link_name != ".bin/"@ + name
                && !has_key(bins_under(entries, g.roots[c].target->Some_0), name),
    ensures
        ({
            let links = link_map(g, nodes, entries, importer);
            &&& links.contains_key(".bin/"@ + name)
            &&& links[".bin/"@ + name] == climb_text(1) + store_text(
                key,
                lookup(g.nodes, key)->Some_0.name,
            ) + "/"@ + path
        }),
{
    let reach = reach_list(g, nodes, importer);
    let below = node_links(g, nodes, entries, reach, reach.len() as int);
    let n = g.roots.len() as int;
    let bins = lookup(entries, key)->Some_0.bin;
    let q = bins.index_of((name, path));
    reach_list_is_exact(g, nodes, importer);
    assert(is_start(g, nodes, importer, key));
    start_is_reached(g, nodes, importer, key);
    put_all_concat(Map::empty(), below, root_links(g, entries, importer, reach, n));
    root_takes_the_command(
        put_all(Map::empty(), below),
        g,
        entries,
        importer,
        reach,
        n,
        r,
        q,
    );
}

} // verus!
