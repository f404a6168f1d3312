//! Per-platform pruning of the instance graph.

use vstd::prelude::*;

use crate::config::{Platform, PlatformModel};
use crate::dict::{has_key, key_index_is, keys_increase, names_increase, Dict, Duplicate, NameSet};
use crate::error::{PlatformWarning, PlatformWarningModel};
use crate::lock::graph::{Edge, EdgeKind, EdgeModel, Graph, Node, NodeModel};
use crate::lock::types::Table;
use crate::platform::matching::{admits_platform, field_admits, is_negation, meta_admits};
use crate::platform::{Cpu, Libc, Os};
use crate::text::text_lt;

verus! {

/// A non-optional edge dropped because its target is excluded here.
#[derive(Debug, PartialEq)]
pub struct DroppedEdge {
    /// Snapshot key of the package that declared the dependency.
    pub dependent: String,
    /// The `node_modules/` link name, which may differ from the target's own
    /// name when the edge is an npm alias.
    pub link_name: String,
    /// Snapshot key of the excluded dependency.
    pub target: String,
}

/// The mathematical value of a [`DroppedEdge`].
pub struct DroppedEdgeModel {
    pub dependent: Seq<char>,
    pub link_name: Seq<char>,
    pub target: Seq<char>,
}

impl DeepView for DroppedEdge {
    type V = DroppedEdgeModel;

    open spec fn deep_view(&self) -> DroppedEdgeModel {
        DroppedEdgeModel {
            dependent: self.dependent@,
            link_name: self.link_name@,
            target: self.target@,
        }
    }
}

impl Duplicate for DroppedEdge {
    fn duplicate(&self) -> (r: Self) {
        DroppedEdge {
            dependent: self.dependent.clone(),
            link_name: self.link_name.clone(),
            target: self.target.clone(),
        }
    }
}

/// One platform's view of the graph.
#[derive(Debug, PartialEq)]
pub struct PlatformView {
    /// Snapshot keys that survive here.
    pub nodes: NameSet,
    /// Snapshot keys excluded here.
    pub pruned: NameSet,
    /// Non-optional edges dropped because their target is excluded here.
    pub dropped_required_edges: Vec<DroppedEdge>,
}

/// The mathematical value of a [`PlatformView`].
pub struct PlatformViewModel {
    pub nodes: Seq<Seq<char>>,
    pub pruned: Seq<Seq<char>>,
    pub dropped_required_edges: Seq<DroppedEdgeModel>,
}

impl DeepView for PlatformView {
    type V = PlatformViewModel;

    open spec fn deep_view(&self) -> PlatformViewModel {
        PlatformViewModel {
            nodes: self.nodes.deep_view(),
            pruned: self.pruned.deep_view(),
            dropped_required_edges: self.dropped_required_edges.deep_view(),
        }
    }
}

/// The per-platform view of the graph, and its transpose.
#[derive(Debug, PartialEq)]
pub struct Matrix {
    /// One view per configured platform.
    pub views: Dict<PlatformView>,
    /// For each package that survives somewhere, the platforms it is on. A
    /// package on no platform is absent.
    pub platforms_by_node: Dict<NameSet>,
}

/// The mathematical value of a [`Matrix`].
pub struct MatrixModel {
    pub views: Table<PlatformViewModel>,
    pub platforms_by_node: Table<Seq<Seq<char>>>,
}

impl DeepView for Matrix {
    type V = MatrixModel;

    open spec fn deep_view(&self) -> MatrixModel {
        MatrixModel {
            views: self.views.deep_view(),
            platforms_by_node: self.platforms_by_node.deep_view(),
        }
    }
}

// --- What pruning yields ------------------------------------------------------

/// The keys of those of the first `n` nodes that are, or are not, admitted.
pub open spec fn keys_where(
    nodes: Table<NodeModel>,
    platform: PlatformModel,
    admitted: bool,
    n: int,
) -> Seq<Seq<char>>
    decreases n,
{
    if n <= 0 {
        Seq::empty()
    } else if meta_admits(nodes[n - 1].1.meta, platform) == admitted {
        keys_where(nodes, platform, admitted, n - 1).push(nodes[n - 1].0)
    } else {
        keys_where(nodes, platform, admitted, n - 1)
    }
}

/// The required ones of a node's first `n` edges whose target does not survive.
pub open spec fn dropped_of(
    kept: Seq<Seq<char>>,
    dependent: Seq<char>,
    edges: Seq<EdgeModel>,
    n: int,
) -> Seq<DroppedEdgeModel>
    decreases n,
{
    if n <= 0 {
        Seq::empty()
    } else {
        let before = dropped_of(kept, dependent, edges, n - 1);
        let e = edges[n - 1];
        if kept.contains(e.target) || e.kind is Optional {
            before
        } else {
            before.push(DroppedEdgeModel { dependent, link_name: e.link_name, target: e.target })
        }
    }
}

/// The required edges that the first `n` nodes lose, of those that survive.
pub open spec fn dropped_edges(
    nodes: Table<NodeModel>,
    platform: PlatformModel,
    kept: Seq<Seq<char>>,
    n: int,
) -> Seq<DroppedEdgeModel>
    decreases n,
{
    if n <= 0 {
        Seq::empty()
    } else {
        let before = dropped_edges(nodes, platform, kept, n - 1);
        let node = nodes[n - 1].1;
        if meta_admits(node.meta, platform) {
            before + dropped_of(kept, nodes[n - 1].0, node.edges, node.edges.len() as int)
        } else {
            before
        }
    }
}

/// A platform's view of the graph.
pub open spec fn view_of(nodes: Table<NodeModel>, platform: PlatformModel) -> PlatformViewModel {
    let n = nodes.len() as int;
    let kept = keys_where(nodes, platform, true, n);
    PlatformViewModel {
        nodes: kept,
        pruned: keys_where(nodes, platform, false, n),
        dropped_required_edges: dropped_edges(nodes, platform, kept, n),
    }
}

/// The views of the first `n` platforms.
pub open spec fn views_of(
    nodes: Table<NodeModel>,
    platforms: Table<PlatformModel>,
    n: int,
) -> Table<PlatformViewModel> {
    Seq::new(n as nat, |i: int| (platforms[i].0, view_of(nodes, platforms[i].1)))
}

/// The names of those of the first `n` platforms that admit a node.
pub open spec fn platforms_of(node: NodeModel, platforms: Table<PlatformModel>, n: int) -> Seq<
    Seq<char>,
>
    decreases n,
{
    if n <= 0 {
        Seq::empty()
    } else if meta_admits(node.meta, platforms[n - 1].1) {
        platforms_of(node, platforms, n - 1).push(platforms[n - 1].0)
    } else {
        platforms_of(node, platforms, n - 1)
    }
}

/// The first `n` nodes that survive somewhere, with the platforms they are on.
pub open spec fn transpose_of(
    nodes: Table<NodeModel>,
    platforms: Table<PlatformModel>,
    n: int,
) -> Table<Seq<Seq<char>>>
    decreases n,
{
    if n <= 0 {
        Seq::empty()
    } else {
        let before = transpose_of(nodes, platforms, n - 1);
        let on = platforms_of(nodes[n - 1].1, platforms, platforms.len() as int);
        if on.len() > 0 {
            before.push((nodes[n - 1].0, on))
        } else {
            before
        }
    }
}

/// The keys of those of the first `n` nodes that survive nowhere.
pub open spec fn excluded_everywhere(
    nodes: Table<NodeModel>,
    platforms: Table<PlatformModel>,
    n: int,
) -> Seq<Seq<char>>
    decreases n,
{
    if n <= 0 {
        Seq::empty()
    } else if platforms_of(nodes[n - 1].1, platforms, platforms.len() as int).len() == 0 {
        excluded_everywhere(nodes, platforms, n - 1).push(nodes[n - 1].0)
    } else {
        excluded_everywhere(nodes, platforms, n - 1)
    }
}

/// The warning for a dropped edge.
pub open spec fn warning_of(platform: Seq<char>, e: DroppedEdgeModel) -> PlatformWarningModel {
    PlatformWarningModel::RequiredDependencyExcluded {
        dependent: e.dependent,
        target: e.target,
        platform,
    }
}

/// One warning per required edge dropped on one of the first `n` platforms.
pub open spec fn edge_warnings(
    nodes: Table<NodeModel>,
    platforms: Table<PlatformModel>,
    n: int,
) -> Seq<PlatformWarningModel>
    decreases n,
{
    if n <= 0 {
        Seq::empty()
    } else {
        let (name, platform) = platforms[n - 1];
        edge_warnings(nodes, platforms, n - 1) + view_of(
            nodes,
            platform,
        ).dropped_required_edges.map_values(|e: DroppedEdgeModel| warning_of(name, e))
    }
}

/// The keys of a table.
pub open spec fn table_keys<T>(table: Table<T>) -> Seq<Seq<char>> {
    table.map_values(|entry: (Seq<char>, T)| entry.0)
}

/// All warnings: those for dropped edges, then one for all the packages that
/// survive nowhere, if there are any.
pub open spec fn warnings_of(nodes: Table<NodeModel>, platforms: Table<PlatformModel>) -> Seq<
    PlatformWarningModel,
> {
    let dropped = edge_warnings(nodes, platforms, platforms.len() as int);
    let nowhere = excluded_everywhere(nodes, platforms, nodes.len() as int);
    if nowhere.len() == 0 {
        dropped
    } else {
        dropped.push(
            PlatformWarningModel::ExcludedEverywhere {
                packages: nowhere,
                platforms: table_keys(platforms),
            },
        )
    }
}

/// The views of all platforms and their transpose.
pub open spec fn matrix_of(nodes: Table<NodeModel>, platforms: Table<PlatformModel>) -> MatrixModel {
    MatrixModel {
        views: views_of(nodes, platforms, platforms.len() as int),
        platforms_by_node: transpose_of(nodes, platforms, nodes.len() as int),
    }
}

// --- Pruning ------------------------------------------------------------------

proof fn kept_come_before(
    nodes: Table<NodeModel>,
    platform: PlatformModel,
    admitted: bool,
    n: int,
    k: Seq<char>,
)
    requires
        0 <= n <= nodes.len(),
        forall|i: int| 0 <= i < n ==> text_lt((#[trigger] nodes[i]).0, k),
    ensures
        forall|i: int|
            0 <= i < keys_where(nodes, platform, admitted, n).len() ==> text_lt(
                #[trigger] keys_where(nodes, platform, admitted, n)[i],
                k,
            ),
    decreases n,
{
    if n > 0 {
        kept_come_before(nodes, platform, admitted, n - 1, k);
        let before = keys_where(nodes, platform, admitted, n - 1);
        let now = keys_where(nodes, platform, admitted, n);
        assert(text_lt(nodes[n - 1].0, k));
        assert forall|i: int| 0 <= i < now.len() implies text_lt(#[trigger] now[i], k) by {
            if i < before.len() {
                assert(now[i] == before[i]);
            }
        }
    }
}

fn push_dropped(out: &mut Vec<DroppedEdge>, kept: &NameSet, dependent: &String, edges: &Vec<Edge>)
    ensures
        final(out).deep_view() == old(out).deep_view() + dropped_of(
            kept.deep_view(),
            dependent@,
            edges.deep_view(),
            edges.deep_view().len() as int,
        ),
{
    let ghost before = out.deep_view();
    let ghost es = edges.deep_view();
    let ghost ks = kept.deep_view();
    let mut j: usize = 0;
    proof {
        assert(before + dropped_of(ks, dependent@, es, 0) =~= before);
    }
    while j < edges.len()
        invariant
            es == edges.deep_view(),
            ks == kept.deep_view(),
            j <= es.len(),
            out.deep_view() == before + dropped_of(ks, dependent@, es, j as int),
        decreases es.len() - j,
    {
        let edge = &edges[j];
        assert(es[j as int] == edge.deep_view());
        let ghost prior = out.deep_view();
        if !kept.contains(&edge.target) && edge.kind != EdgeKind::Optional {
            out.push(
                DroppedEdge {
                    dependent: dependent.clone(),
                    link_name: edge.link_name.clone(),
                    target: edge.target.clone(),
                },
            );
            proof {
                let d = DroppedEdgeModel {
                    dependent: dependent@,
                    link_name: es[j as int].link_name,
                    target: es[j as int].target,
                };
                assert(out.deep_view() =~= prior.push(d));
                assert(out.deep_view() =~= before + dropped_of(ks, dependent@, es, j as int).push(d));
            }
        }
        j += 1;
    }
}

/// The view of the graph on one platform.
fn prune_one(nodes: &Dict<Node>, platform: &Platform) -> (r: PlatformView)
    ensures
        r.deep_view() == view_of(nodes.deep_view(), platform.deep_view()),
{
    let ghost table = nodes.deep_view();
    let ghost p = platform.deep_view();
    let mut kept = NameSet::new();
    let mut pruned = NameSet::new();
    let mut i: usize = 0;
    proof {
        use_type_invariant(nodes);
    }
    while i < nodes.len()
        invariant
            nodes.sorted(),
            table == nodes.deep_view(),
            p == platform.deep_view(),
            i <= table.len(),
            kept.deep_view() == keys_where(table, p, true, i as int),
            pruned.deep_view() == keys_where(table, p, false, i as int),
        decreases table.len() - i,
    {
        let key = nodes.key(i);
        let node = nodes.value(i);
        assert(table[i as int] == (key@, node.deep_view()));
        proof {
            assert forall|k: int| 0 <= k < i implies text_lt((#[trigger] table[k]).0, key@) by {
                assert(text_lt(nodes@[k].0@, nodes@[i as int].0@));
            }
            kept_come_before(table, p, true, i as int, key@);
            kept_come_before(table, p, false, i as int, key@);
        }
        if admits_platform(&node.meta, platform) {
            kept.insert(key.clone());
        } else {
            pruned.insert(key.clone());
        }
        i += 1;
    }
    // An edge is dropped when its target is excluded here. Edges from a
    // dependent that is itself excluded are not dropped: the whole subtree is
    // absent.
    let mut dropped: Vec<DroppedEdge> = Vec::new();
    let ghost ks = kept.deep_view();
    proof {
        assert(dropped.deep_view() =~= dropped_edges(table, p, ks, 0));
    }
    i = 0;
    while i < nodes.len()
        invariant
            table == nodes.deep_view(),
            p == platform.deep_view(),
            ks == kept.deep_view(),
            i <= table.len(),
            dropped.deep_view() == dropped_edges(table, p, ks, i as int),
        decreases table.len() - i,
    {
        let key = nodes.key(i);
        let node = nodes.value(i);
        assert(table[i as int] == (key@, node.deep_view()));
        if admits_platform(&node.meta, platform) {
            push_dropped(&mut dropped, &kept, key, &node.edges);
        }
        i += 1;
    }
    PlatformView { nodes: kept, pruned, dropped_required_edges: dropped }
}

fn push_warnings(out: &mut Vec<PlatformWarning>, platform: &String, dropped: &Vec<DroppedEdge>)
    ensures
        final(out).deep_view() == old(out).deep_view() + dropped.deep_view().map_values(
            |e: DroppedEdgeModel| warning_of(platform@, e),
        ),
{
    let ghost before = out.deep_view();
    let ghost want = dropped.deep_view().map_values(|e: DroppedEdgeModel| warning_of(platform@, e));
    let mut j: usize = 0;
    proof {
        assert(before + want.take(0) =~= before);
    }
    while j < dropped.len()
        invariant
            want == dropped.deep_view().map_values(
                |e: DroppedEdgeModel| warning_of(platform@, e),
            ),
            j <= dropped.len(),
            out.deep_view() == before + want.take(j as int),
        decreases dropped.len() - j,
    {
        let ghost prior = out.deep_view();
        out.push(
            PlatformWarning::RequiredDependencyExcluded {
                dependent: dropped[j].dependent.clone(),
                target: dropped[j].target.clone(),
                platform: platform.clone(),
            },
        );
        proof {
            assert(dropped.deep_view()[j as int] == dropped@[j as int].deep_view());
            assert(out.deep_view() =~= prior.push(want[j as int]));
            assert(out.deep_view() =~= before + want.take(j + 1));
        }
        j += 1;
    }
    proof {
        assert(want.take(j as int) =~= want);
    }
}

proof fn platforms_come_before(
    node: NodeModel,
    platforms: Table<PlatformModel>,
    n: int,
    k: Seq<char>,
)
    requires
        0 <= n <= platforms.len(),
        forall|i: int| 0 <= i < n ==> text_lt((#[trigger] platforms[i]).0, k),
    ensures
        forall|i: int|
            0 <= i < platforms_of(node, platforms, n).len() ==> text_lt(
                #[trigger] platforms_of(node, platforms, n)[i],
                k,
            ),
    decreases n,
{
    if n > 0 {
        platforms_come_before(node, platforms, n - 1, k);
        let before = platforms_of(node, platforms, n - 1);
        let now = platforms_of(node, platforms, n);
        assert(text_lt(platforms[n - 1].0, k));
        assert forall|i: int| 0 <= i < now.len() implies text_lt(#[trigger] now[i], k) by {
            if i < before.len() {
                assert(now[i] == before[i]);
            }
        }
    }
}

/// The platforms a node is on.
fn platforms_on(node: &Node, platforms: &Dict<Platform>) -> (r: NameSet)
    ensures
        r.deep_view() == platforms_of(
            node.deep_view(),
            platforms.deep_view(),
            platforms.deep_view().len() as int,
        ),
{
    let ghost table = platforms.deep_view();
    let mut on = NameSet::new();
    let mut i: usize = 0;
    proof {
        use_type_invariant(platforms);
    }
    while i < platforms.len()
        invariant
            platforms.sorted(),
            table == platforms.deep_view(),
            i <= table.len(),
            on.deep_view() == platforms_of(node.deep_view(), table, i as int),
        decreases table.len() - i,
    {
        let name = platforms.key(i);
        let platform = platforms.value(i);
        assert(table[i as int] == (name@, platform.deep_view()));
        proof {
            assert forall|k: int| 0 <= k < i implies text_lt((#[trigger] table[k]).0, name@) by {
                assert(text_lt(platforms@[k].0@, platforms@[i as int].0@));
            }
            platforms_come_before(node.deep_view(), table, i as int, name@);
        }
        if admits_platform(&node.meta, platform) {
            on.insert(name.clone());
        }
        i += 1;
    }
    on
}

proof fn transpose_comes_before(
    nodes: Table<NodeModel>,
    platforms: Table<PlatformModel>,
    n: int,
    k: Seq<char>,
)
    requires
        0 <= n <= nodes.len(),
        forall|i: int| 0 <= i < n ==> text_lt((#[trigger] nodes[i]).0, k),
    ensures
        forall|i: int|
            0 <= i < transpose_of(nodes, platforms, n).len() ==> text_lt(
                (#[trigger] transpose_of(nodes, platforms, n)[i]).0,
                k,
            ),
    decreases n,
{
    if n > 0 {
        transpose_comes_before(nodes, platforms, n - 1, k);
        let before = transpose_of(nodes, platforms, n - 1);
        let now = transpose_of(nodes, platforms, n);
        assert(text_lt(nodes[n - 1].0, k));
        assert forall|i: int| 0 <= i < now.len() implies text_lt((#[trigger] now[i]).0, k) by {
            if i < before.len() {
                assert(now[i] == before[i]);
            }
        }
    }
}

/// Prune the graph for each configured platform.
///
/// A node survives iff its own `os`/`cpu`/`libc` admit the platform: a
/// per-package decision consulting only that package's fields. There is no
/// reachability sweep, so a node that survives but has become unreachable from
/// every root stays in the view.
pub fn prune(graph: &Graph, platforms: &Dict<Platform>) -> (r: (Matrix, Vec<PlatformWarning>))
    ensures
        r.0.deep_view() == matrix_of(graph.deep_view().nodes, platforms.deep_view()),
        r.1.deep_view() == warnings_of(graph.deep_view().nodes, platforms.deep_view()),
{
    let ghost nodes = graph.nodes.deep_view();
    let ghost table = platforms.deep_view();
    let mut views: Dict<PlatformView> = Dict::new();
    let mut warnings: Vec<PlatformWarning> = Vec::new();
    let mut i: usize = 0;
    proof {
        use_type_invariant(platforms);
        use_type_invariant(&graph.nodes);
        assert(views_of(nodes, table, 0) =~= Seq::<(Seq<char>, PlatformViewModel)>::empty());
        assert(warnings.deep_view() =~= edge_warnings(nodes, table, 0));
    }
    while i < platforms.len()
        invariant
            platforms.sorted(),
            nodes == graph.nodes.deep_view(),
            table == platforms.deep_view(),
            i <= table.len(),
            views.deep_view() == views_of(nodes, table, i as int),
            warnings.deep_view() == edge_warnings(nodes, table, i as int),
        decreases table.len() - i,
    {
        let name = platforms.key(i);
        let platform = platforms.value(i);
        assert(table[i as int] == (name@, platform.deep_view()));
        let view = prune_one(&graph.nodes, platform);
        push_warnings(&mut warnings, name, &view.dropped_required_edges);
        let ghost done = views.deep_view();
        proof {
            assert forall|k: int| 0 <= k < done.len() implies text_lt((#[trigger] done[k]).0, name@) by {
                assert(done[k].0 == table[k].0);
                assert(text_lt(platforms@[k].0@, platforms@[i as int].0@));
            }
        }
        views.insert(name.clone(), view);
        i += 1;
        proof {
            assert(views.deep_view() =~= views_of(nodes, table, i as int));
        }
    }
    let mut platforms_by_node: Dict<NameSet> = Dict::new();
    // Gathered into one warning: on real input this set is large.
    let mut nowhere: Vec<String> = Vec::new();
    proof {
        assert(nowhere.deep_view() =~= excluded_everywhere(nodes, table, 0));
    }
    i = 0;
    while i < graph.nodes.len()
        invariant
            graph.nodes.sorted(),
            nodes == graph.nodes.deep_view(),
            table == platforms.deep_view(),
            i <= nodes.len(),
            platforms_by_node.deep_view() == transpose_of(nodes, table, i as int),
            nowhere.deep_view() == excluded_everywhere(nodes, table, i as int),
        decreases nodes.len() - i,
    {
        let key = graph.nodes.key(i);
        let node = graph.nodes.value(i);
        assert(nodes[i as int] == (key@, node.deep_view()));
        proof {
            assert forall|k: int| 0 <= k < i implies text_lt((#[trigger] nodes[k]).0, key@) by {
                assert(text_lt(graph.nodes@[k].0@, graph.nodes@[i as int].0@));
            }
            transpose_comes_before(nodes, table, i as int, key@);
        }
        let on = platforms_on(node, platforms);
        let ghost prior = nowhere.deep_view();
        if on.is_empty() {
            nowhere.push(key.clone());
            proof {
                assert(nowhere.deep_view() =~= prior.push(key@));
            }
        } else {
            platforms_by_node.insert(key.clone(), on);
        }
        i += 1;
    }
    if nowhere.len() > 0 {
        let mut names: Vec<String> = Vec::new();
        i = 0;
        proof {
            assert(names.deep_view() =~= table_keys(table).take(0));
        }
        while i < platforms.len()
            invariant
                table == platforms.deep_view(),
                i <= table.len(),
                names.deep_view() == table_keys(table).take(i as int),
            decreases table.len() - i,
        {
            let ghost prior = names.deep_view();
            names.push(platforms.key(i).clone());
            proof {
                assert(names.deep_view() =~= prior.push(table[i as int].0));
                assert(table_keys(table).take(i + 1) =~= prior.push(table[i as int].0));
            }
            i += 1;
        }
        let ghost prior = warnings.deep_view();
        warnings.push(
            PlatformWarning::ExcludedEverywhere { packages: nowhere, platforms: names },
        );
        proof {
            assert(table_keys(table).take(table.len() as int) =~= table_keys(table));
            assert(warnings.deep_view() =~= warnings_of(nodes, table));
        }
    }
    (Matrix { views, platforms_by_node }, warnings)
}

// --- Laws -----------------------------------------------------------------------

proof fn keys_where_contains(
    nodes: Table<NodeModel>,
    platform: PlatformModel,
    admitted: bool,
    n: int,
    k: Seq<char>,
)
    requires
        0 <= n <= nodes.len(),
    ensures
        keys_where(nodes, platform, admitted, n).contains(k) <==> exists|i: int|
            0 <= i < n && (#[trigger] nodes[i]).0 == k && meta_admits(nodes[i].1.meta, platform)
                == admitted,
    decreases n,
{
    if n > 0 {
        keys_where_contains(nodes, platform, admitted, n - 1, k);
        let before = keys_where(nodes, platform, admitted, n - 1);
        let now = keys_where(nodes, platform, admitted, n);
        if now.contains(k) && !before.contains(k) {
            let i = now.index_of(k);
            if i < before.len() {
                assert(before[i] == k);
            }
            assert(nodes[n - 1].0 == k);
        }
        if before.contains(k) {
            let i = before.index_of(k);
            assert(now[i] == k);
        }
        if nodes[n - 1].0 == k && meta_admits(nodes[n - 1].1.meta, platform) == admitted {
            assert(now[now.len() - 1] == k);
        }
    }
}

/// On every platform the surviving and the pruned keys partition the graph:
/// each key is in exactly one of them, and nothing else is in either.
pub proof fn views_partition_the_graph(
    nodes: Table<NodeModel>,
    platform: PlatformModel,
    k: Seq<char>,
)
    requires
        keys_increase(nodes),
    ensures
        has_key(nodes, k) <==> (view_of(nodes, platform).nodes.contains(k) || view_of(
            nodes,
            platform,
        ).pruned.contains(k)),
        !(view_of(nodes, platform).nodes.contains(k) && view_of(nodes, platform).pruned.contains(
            k,
        )),
{
    let n = nodes.len() as int;
    keys_where_contains(nodes, platform, true, n, k);
    keys_where_contains(nodes, platform, false, n, k);
    if has_key(nodes, k) {
        let i = crate::dict::key_index(nodes, k);
        assert(nodes[i].0 == k);
    }
    if view_of(nodes, platform).nodes.contains(k) && view_of(nodes, platform).pruned.contains(k) {
        let i = choose|i: int|
            0 <= i < n && (#[trigger] nodes[i]).0 == k && meta_admits(nodes[i].1.meta, platform)
                == true;
        let j = choose|i: int|
            0 <= i < n && (#[trigger] nodes[i]).0 == k && meta_admits(nodes[i].1.meta, platform)
                == false;
        crate::dict::key_index_is(nodes, i);
        crate::dict::key_index_is(nodes, j);
    }
}

proof fn platforms_of_contains(
    node: NodeModel,
    platforms: Table<PlatformModel>,
    n: int,
    p: Seq<char>,
)
    requires
        0 <= n <= platforms.len(),
    ensures
        platforms_of(node, platforms, n).contains(p) <==> exists|i: int|
            0 <= i < n && (#[trigger] platforms[i]).0 == p && meta_admits(
                node.meta,
                platforms[i].1,
            ),
    decreases n,
{
    if n > 0 {
        platforms_of_contains(node, platforms, n - 1, p);
        let before = platforms_of(node, platforms, n - 1);
        let now = platforms_of(node, platforms, n);
        if now.contains(p) && !before.contains(p) {
            let i = now.index_of(p);
            if i < before.len() {
                assert(before[i] == p);
            }
            assert(platforms[n - 1].0 == p);
        }
        if before.contains(p) {
            let i = before.index_of(p);
            assert(now[i] == p);
        }
        if platforms[n - 1].0 == p && meta_admits(node.meta, platforms[n - 1].1) {
            assert(now[now.len() - 1] == p);
        }
    }
}

proof fn transpose_has(
    nodes: Table<NodeModel>,
    platforms: Table<PlatformModel>,
    n: int,
    k: Seq<char>,
    on: Seq<Seq<char>>,
)
    requires
        0 <= n <= nodes.len(),
    ensures
        transpose_of(nodes, platforms, n).contains((k, on)) <==> exists|i: int|
            0 <= i < n && (#[trigger] nodes[i]).0 == k && on.len() > 0 && on == platforms_of(
                nodes[i].1,
                platforms,
                platforms.len() as int,
            ),
    decreases n,
{
    if n > 0 {
        transpose_has(nodes, platforms, n - 1, k, on);
        let before = transpose_of(nodes, platforms, n - 1);
        let now = transpose_of(nodes, platforms, n);
        if now.contains((k, on)) && !before.contains((k, on)) {
            let i = now.index_of((k, on));
            if i < before.len() {
                assert(before[i] == (k, on));
            }
            assert(nodes[n - 1].0 == k);
        }
        if before.contains((k, on)) {
            let i = before.index_of((k, on));
            assert(now[i] == (k, on));
        }
        if nodes[n - 1].0 == k && on.len() > 0 && on == platforms_of(
            nodes[n - 1].1,
            platforms,
            platforms.len() as int,
        ) {
            assert(now[now.len() - 1] == (k, on));
        }
    }
}

/// The transpose of the views: a package stands in it under a platform exactly
/// where it stands in that platform's view.
pub proof fn transpose_mirrors_views(
    nodes: Table<NodeModel>,
    platforms: Table<PlatformModel>,
    node: int,
    platform: int,
)
    requires
        keys_increase(nodes),
        keys_increase(platforms),
        0 <= node < nodes.len(),
        0 <= platform < platforms.len(),
    ensures
        view_of(nodes, platforms[platform].1).nodes.contains(nodes[node].0) <==> exists|
            on: Seq<Seq<char>>,
        |
            #[trigger] matrix_of(nodes, platforms).platforms_by_node.contains((nodes[node].0, on))
                && on.contains(platforms[platform].0),
{
    let k = nodes[node].0;
    let p = platforms[platform].0;
    let n = platforms.len() as int;
    let on = platforms_of(nodes[node].1, platforms, n);
    keys_where_contains(nodes, platforms[platform].1, true, nodes.len() as int, k);
    platforms_of_contains(nodes[node].1, platforms, n, p);
    let table = matrix_of(nodes, platforms).platforms_by_node;
    if view_of(nodes, platforms[platform].1).nodes.contains(k) {
        let i = choose|i: int|
            0 <= i < nodes.len() && (#[trigger] nodes[i]).0 == k && meta_admits(
                nodes[i].1.meta,
                platforms[platform].1,
            ) == true;
        crate::dict::key_index_is(nodes, i);
        crate::dict::key_index_is(nodes, node);
        assert(on.contains(p));
        assert(on.len() > 0);
        transpose_has(nodes, platforms, nodes.len() as int, k, on);
        assert(table.contains((k, on)));
    }
    if exists|on: Seq<Seq<char>>| #[trigger] table.contains((k, on)) && on.contains(p) {
        let other = choose|on: Seq<Seq<char>>| #[trigger] table.contains((k, on)) && on.contains(p);
        transpose_has(nodes, platforms, nodes.len() as int, k, other);
        let i = choose|i: int|
            0 <= i < nodes.len() && (#[trigger] nodes[i]).0 == k && other.len() > 0 && other
                == platforms_of(nodes[i].1, platforms, n);
        crate::dict::key_index_is(nodes, i);
        crate::dict::key_index_is(nodes, node);
        let j = choose|j: int|
            0 <= j < n && (#[trigger] platforms[j]).0 == p && meta_admits(
                nodes[node].1.meta,
                platforms[j].1,
            );
        crate::dict::key_index_is(platforms, j);
        crate::dict::key_index_is(platforms, platform);
    }
}

/// No package stands in the transpose with no platform.
pub proof fn transpose_has_no_empty_entry(
    nodes: Table<NodeModel>,
    platforms: Table<PlatformModel>,
    i: int,
)
    requires
        0 <= i < matrix_of(nodes, platforms).platforms_by_node.len(),
    ensures
        matrix_of(nodes, platforms).platforms_by_node[i].1.len() > 0,
{
    let table = matrix_of(nodes, platforms).platforms_by_node;
    assert(table.contains((table[i].0, table[i].1)));
    transpose_has(nodes, platforms, nodes.len() as int, table[i].0, table[i].1);
}

/// Every package in the transpose is a node of the graph.
pub proof fn survivors_are_nodes(nodes: Table<NodeModel>, platforms: Table<PlatformModel>, i: int)
    requires
        0 <= i < matrix_of(nodes, platforms).platforms_by_node.len(),
    ensures
        has_key(nodes, matrix_of(nodes, platforms).platforms_by_node[i].0),
{
    let table = matrix_of(nodes, platforms).platforms_by_node;
    assert(table.contains((table[i].0, table[i].1)));
    transpose_has(nodes, platforms, nodes.len() as int, table[i].0, table[i].1);
}

/// The packages that survive somewhere come in order.
pub proof fn survivors_increase(nodes: Table<NodeModel>, platforms: Table<PlatformModel>, n: int)
    requires
        keys_increase(nodes),
        0 <= n <= nodes.len(),
    ensures
        names_increase(table_keys(transpose_of(nodes, platforms, n))),
    decreases n,
{
    if n > 0 {
        survivors_increase(nodes, platforms, n - 1);
        let before = table_keys(transpose_of(nodes, platforms, n - 1));
        let now = table_keys(transpose_of(nodes, platforms, n));
        let k = nodes[n - 1].0;
        assert forall|i: int| 0 <= i < n - 1 implies text_lt((#[trigger] nodes[i]).0, k) by {
            assert(text_lt(nodes[i].0, nodes[n - 1].0));
        }
        transpose_comes_before(nodes, platforms, n - 1, k);
        assert forall|i: int, j: int| 0 <= i < j < now.len() implies text_lt(
            #[trigger] now[i],
            #[trigger] now[j],
        ) by {
            assert(now[i] == before[i]);
            if j < before.len() {
                assert(now[j] == before[j]);
            } else {
                assert(transpose_of(nodes, platforms, n - 1)[i].0 == now[i]);
            }
        }
    }
}

/// No warning speaks of an edge that is optional, or whose dependent is itself
/// excluded: every dropped edge leaves a node that survives here.
pub proof fn dropped_edges_leave_survivors(
    nodes: Table<NodeModel>,
    platform: PlatformModel,
    kept: Seq<Seq<char>>,
    n: int,
    i: int,
)
    requires
        0 <= n <= nodes.len(),
        0 <= i < dropped_edges(nodes, platform, kept, n).len(),
    ensures
        ({
            let e = dropped_edges(nodes, platform, kept, n)[i];
            &&& !kept.contains(e.target)
            &&& exists|k: int, j: int|
                0 <= k < n && 0 <= j < nodes[k].1.edges.len() && meta_admits(
                    nodes[k].1.meta,
                    platform,
                ) && nodes[k].0 == e.dependent && (#[trigger] nodes[k].1.edges[j]).target
                    == e.target && nodes[k].1.edges[j].kind is Prod
        }),
    decreases n,
{
    if n > 0 {
        let before = dropped_edges(nodes, platform, kept, n - 1);
        let now = dropped_edges(nodes, platform, kept, n);
        if i < before.len() {
            assert(now[i] == before[i]);
            dropped_edges_leave_survivors(nodes, platform, kept, n - 1, i);
        } else {
            let node = nodes[n - 1].1;
            let own = dropped_of(kept, nodes[n - 1].0, node.edges, node.edges.len() as int);
            assert(now[i] == own[i - before.len()]);
            dropped_come_from_edges(
                kept,
                nodes[n - 1].0,
                node.edges,
                node.edges.len() as int,
                i - before.len(),
            );
            let j = choose|j: int|
                0 <= j < node.edges.len() && (#[trigger] node.edges[j]).target == now[i].target
                    && node.edges[j].kind is Prod;
            assert(nodes[n - 1].1.edges[j].target == now[i].target);
        }
    }
}

proof fn dropped_come_from_edges(
    kept: Seq<Seq<char>>,
    dependent: Seq<char>,
    edges: Seq<EdgeModel>,
    n: int,
    i: int,
)
    requires
        0 <= n <= edges.len(),
        0 <= i < dropped_of(kept, dependent, edges, n).len(),
    ensures
        ({
            let e = dropped_of(kept, dependent, edges, n)[i];
            &&& !kept.contains(e.target)
            &&& e.dependent == dependent
            &&& exists|j: int|
                0 <= j < n && (#[trigger] edges[j]).target == e.target && edges[j].kind is Prod
        }),
    decreases n,
{
    if n > 0 {
        let before = dropped_of(kept, dependent, edges, n - 1);
        let now = dropped_of(kept, dependent, edges, n);
        if i < before.len() {
            assert(now[i] == before[i]);
            dropped_come_from_edges(kept, dependent, edges, n - 1, i);
        } else {
            assert(edges[n - 1].target == now[i].target);
        }
    }
}

/// The list names this value, without an exclamation mark before it.
pub open spec fn names(list: Seq<Seq<char>>, value: Seq<char>) -> bool {
    exists|i: int| 0 <= i < list.len() && #[trigger] list[i] == value
}

/// Some entry of the list does not start with an exclamation mark.
pub open spec fn names_anything(list: Seq<Seq<char>>) -> bool {
    exists|i: int| 0 <= i < list.len() && !(seq!['!']).is_prefix_of(#[trigger] list[i])
}

/// The field rules this value out: it is there, it is not the lone word `any`, and either
/// it has the value behind an exclamation mark, or it names values of which this is none.
pub open spec fn rules_out(field: Option<Seq<Seq<char>>>, value: Seq<char>) -> bool {
    &&& field is Some
    &&& field->Some_0 != seq!["any"@]
    &&& names(field->Some_0, seq!['!'] + value) || (names_anything(field->Some_0) && !names(
        field->Some_0,
        value,
    ))
}

proof fn admission_is_not_ruling_out(field: Option<Seq<Seq<char>>>, value: Seq<char>)
    requires
        value.len() > 0,
        value[0] != '!',
    ensures
        field_admits(field, value) == !rules_out(field, value),
{
    if let Some(list) = field {
        let bang = seq!['!'];
        let negated = bang + value;
        assert(list == seq!["any"@] <==> list.len() == 1 && list[0] == "any"@) by {
            if list.len() == 1 && list[0] == "any"@ {
                assert(list =~= seq!["any"@]);
            }
        }
        assert forall|i: int| 0 <= i < list.len() implies (is_negation(#[trigger] list[i])
            && list[i].skip(1) == value <==> list[i] == negated) && (is_negation(list[i])
            <==> bang.is_prefix_of(list[i])) by {
            let e = list[i];
            if is_negation(e) {
                assert(e.subrange(0, 1) =~= bang);
                assert(e =~= bang + e.skip(1));
            }
            if e == negated {
                assert(e.skip(1) =~= value);
            }
            if bang.is_prefix_of(e) {
                assert(e.subrange(0, 1)[0] == '!');
            }
        }
        if list != seq!["any"@] {
            if names(list, negated) {
                let i = choose|i: int| 0 <= i < list.len() && #[trigger] list[i] == negated;
                assert(is_negation(list[i]) && list[i].skip(1) == value);
            } else {
                assert forall|i: int| 0 <= i < list.len() implies !(is_negation(#[trigger] list[i])
                    && list[i].skip(1) == value) by {
                    assert(list[i] != negated);
                }
            }
            if names(list, value) {
                let i = choose|i: int| 0 <= i < list.len() && #[trigger] list[i] == value;
                assert(!is_negation(list[i]) && list[i] == value);
            }
            if names_anything(list) {
                let i = choose|i: int| 0 <= i < list.len() && !bang.is_prefix_of(#[trigger] list[i]);
                assert(!is_negation(list[i]));
            } else {
                assert forall|i: int| 0 <= i < list.len() implies is_negation(#[trigger] list[i]) by {
                    assert(bang.is_prefix_of(list[i]));
                }
            }
        }
    }
}

/// A platform's view prunes exactly the packages that one of their own fields rules out
/// there: the `os` list by the platform's system, the `cpu` list by its architecture, or,
/// where the platform has a C library, the `libc` list by that. Every other package is kept.
pub proof fn a_view_goes_by_the_lists(
    nodes: Table<NodeModel>,
    platforms: Table<PlatformModel>,
    p: int,
    i: int,
)
    requires
        keys_increase(nodes),
        0 <= p < platforms.len(),
        0 <= i < nodes.len(),
    ensures
        matrix_of(nodes, platforms).views.len() == platforms.len(),
        matrix_of(nodes, platforms).views[p].0 == platforms[p].0,
        ({
            let (key, node) = nodes[i];
            let platform = platforms[p].1;
            let view = matrix_of(nodes, platforms).views[p].1;
            let os = match platform.os {
                Os::Linux => "linux"@,
                Os::Darwin => "darwin"@,
                Os::Win32 => "win32"@,
            };
            let cpu = match platform.cpu {
                Cpu::X64 => "x64"@,
                Cpu::Arm64 => "arm64"@,
            };
            let out = rules_out(node.meta.os, os) || rules_out(node.meta.cpu, cpu)
                || match platform.libc {
                Some(Libc::Glibc) => rules_out(node.meta.libc, "glibc"@),
                Some(Libc::Musl) => rules_out(node.meta.libc, "musl"@),
                None => false,
            };
            &&& view.pruned.contains(key) <==> out
            &&& view.nodes.contains(key) <==> !out
        }),
{
    let (key, node) = nodes[i];
    let platform = platforms[p].1;
    let n = nodes.len() as int;
    reveal_strlit("linux");
    reveal_strlit("darwin");
    reveal_strlit("win32");
    reveal_strlit("x64");
    reveal_strlit("arm64");
    reveal_strlit("glibc");
    reveal_strlit("musl");
    admission_is_not_ruling_out(node.meta.os, platform.os.npm());
    admission_is_not_ruling_out(node.meta.cpu, platform.cpu.npm());
    if let Some(libc) = platform.libc {
        admission_is_not_ruling_out(node.meta.libc, libc.npm());
    }
    keys_where_contains(nodes, platform, true, n, key);
    keys_where_contains(nodes, platform, false, n, key);
    assert forall|j: int| 0 <= j < n && (#[trigger] nodes[j]).0 == key implies j == i by {
        key_index_is(nodes, i);
        key_index_is(nodes, j);
    }
    assert(nodes[i].0 == key);
}

proof fn edge_is_dropped(
    kept: Seq<Seq<char>>,
    dependent: Seq<char>,
    edges: Seq<EdgeModel>,
    n: int,
    j: int,
)
    requires
        0 <= j < n <= edges.len(),
        !kept.contains(edges[j].target),
        edges[j].kind is Prod,
    ensures
        dropped_of(kept, dependent, edges, n).contains(
            DroppedEdgeModel {
                dependent,
                link_name: edges[j].link_name,
                target: edges[j].target,
            },
        ),
    decreases n,
{
    let all = dropped_of(kept, dependent, edges, n);
    let before = dropped_of(kept, dependent, edges, n - 1);
    let d = DroppedEdgeModel { dependent, link_name: edges[j].link_name, target: edges[j].target };
    if j == n - 1 {
        assert(all[all.len() - 1] == d);
    } else {
        edge_is_dropped(kept, dependent, edges, n - 1, j);
        assert(all[before.index_of(d)] == d);
    }
}

proof fn dropped_stands_among(
    nodes: Table<NodeModel>,
    platform: PlatformModel,
    kept: Seq<Seq<char>>,
    n: int,
    k: int,
    j: int,
)
    requires
        0 <= k < n <= nodes.len(),
        meta_admits(nodes[k].1.meta, platform),
        0 <= j < nodes[k].1.edges.len(),
        !kept.contains(nodes[k].1.edges[j].target),
        nodes[k].1.edges[j].kind is Prod,
    ensures
        dropped_edges(nodes, platform, kept, n).contains(
            DroppedEdgeModel {
                dependent: nodes[k].0,
                link_name: nodes[k].1.edges[j].link_name,
                target: nodes[k].1.edges[j].target,
            },
        ),
    decreases n,
{
    let all = dropped_edges(nodes, platform, kept, n);
    let before = dropped_edges(nodes, platform, kept, n - 1);
    let edges = nodes[k].1.edges;
    let d = DroppedEdgeModel {
        dependent: nodes[k].0,
        link_name: edges[j].link_name,
        target: edges[j].target,
    };
    if k == n - 1 {
        edge_is_dropped(kept, nodes[k].0, edges, edges.len() as int, j);
        let own = dropped_of(kept, nodes[k].0, edges, edges.len() as int);
        assert(all[before.len() + own.index_of(d)] == d);
    } else {
        dropped_stands_among(nodes, platform, kept, n - 1, k, j);
        assert(all[before.index_of(d)] == d);
    }
}

/// A view reports a dropped edge for every required dependency of a package it keeps whose
/// target it does not keep, and for nothing else: no optional dependency, and no dependency
/// of a package that is pruned.
pub proof fn dropped_edges_are_exact(
    nodes: Table<NodeModel>,
    platform: PlatformModel,
    d: DroppedEdgeModel,
)
    requires
        keys_increase(nodes),
    ensures
        view_of(nodes, platform).dropped_required_edges.contains(d) <==> exists|k: int, j: int|
            0 <= k < nodes.len() && 0 <= j < nodes[k].1.edges.len() && nodes[k].0 == d.dependent
                && view_of(nodes, platform).nodes.contains(nodes[k].0) && (
            #[trigger] nodes[k].1.edges[j]).link_name == d.link_name && nodes[k].1.edges[j].target
                == d.target && nodes[k].1.edges[j].kind is Prod && !view_of(
                nodes,
                platform,
            ).nodes.contains(d.target),
{
    let n = nodes.len() as int;
    let view = view_of(nodes, platform);
    let kept = view.nodes;
    let all = view.dropped_required_edges;
    if exists|k: int, j: int|
        0 <= k < nodes.len() && 0 <= j < nodes[k].1.edges.len() && nodes[k].0 == d.dependent
            && kept.contains(nodes[k].0) && (#[trigger] nodes[k].1.edges[j]).link_name
            == d.link_name && nodes[k].1.edges[j].target == d.target && nodes[k].1.edges[j].kind is Prod
            && !kept.contains(d.target) {
        let (k, j) = choose|k: int, j: int|
            0 <= k < nodes.len() && 0 <= j < nodes[k].1.edges.len() && nodes[k].0 == d.dependent
                && kept.contains(nodes[k].0) && (#[trigger] nodes[k].1.edges[j]).link_name
                == d.link_name && nodes[k].1.edges[j].target == d.target
                && nodes[k].1.edges[j].kind is Prod && !kept.contains(d.target);
        kept_is_admitted(nodes, platform, k);
        dropped_stands_among(nodes, platform, kept, n, k, j);
    }
    if all.contains(d) {
        dropped_has_an_edge(nodes, platform, kept, n, all.index_of(d));
        let (k, j) = choose|k: int, j: int|
            0 <= k < n && 0 <= j < nodes[k].1.edges.len() && meta_admits(
                nodes[k].1.meta,
                platform,
            ) && nodes[k].0 == d.dependent && (#[trigger] nodes[k].1.edges[j]).target == d.target
                && nodes[k].1.edges[j].link_name == d.link_name && nodes[k].1.edges[j].kind is Prod;
        kept_is_admitted(nodes, platform, k);
        assert(nodes[k].1.edges[j].link_name == d.link_name);
    }
}

proof fn kept_is_admitted(nodes: Table<NodeModel>, platform: PlatformModel, k: int)
    requires
        keys_increase(nodes),
        0 <= k < nodes.len(),
    ensures
        view_of(nodes, platform).nodes.contains(nodes[k].0) <==> meta_admits(
            nodes[k].1.meta,
            platform,
        ),
{
    let n = nodes.len() as int;
    keys_where_contains(nodes, platform, true, n, nodes[k].0);
    assert forall|j: int| 0 <= j < n && (#[trigger] nodes[j]).0 == nodes[k].0 implies j == k by {
        key_index_is(nodes, k);
        key_index_is(nodes, j);
    }
    assert(nodes[k].0 == nodes[k].0);
}

proof fn dropped_has_an_edge(
    nodes: Table<NodeModel>,
    platform: PlatformModel,
    kept: Seq<Seq<char>>,
    n: int,
    i: int,
)
    requires
        0 <= n <= nodes.len(),
        0 <= i < dropped_edges(nodes, platform, kept, n).len(),
    ensures
        ({
            let e = dropped_edges(nodes, platform, kept, n)[i];
            &&& !kept.contains(e.target)
            &&& exists|k: int, j: int|
                0 <= k < n && 0 <= j < nodes[k].1.edges.len() && meta_admits(
                    nodes[k].1.meta,
                    platform,
                ) && nodes[k].0 == e.dependent && (#[trigger] nodes[k].1.edges[j]).target
                    == e.target && nodes[k].1.edges[j].link_name == e.link_name
                    && nodes[k].1.edges[j].kind is Prod
        }),
    decreases n,
{
    if n > 0 {
        let before = dropped_edges(nodes, platform, kept, n - 1);
        let now = dropped_edges(nodes, platform, kept, n);
        if i < before.len() {
            assert(now[i] == before[i]);
            dropped_has_an_edge(nodes, platform, kept, n - 1, i);
        } else {
            let node = nodes[n - 1].1;
            let own = dropped_of(kept, nodes[n - 1].0, node.edges, node.edges.len() as int);
            assert(now[i] == own[i - before.len()]);
            dropped_is_one_edge(
                kept,
                nodes[n - 1].0,
                node.edges,
                node.edges.len() as int,
                i - before.len(),
            );
            let j = choose|j: int|
                0 <= j < node.edges.len() && (#[trigger] node.edges[j]).target == now[i].target
                    && node.edges[j].link_name == now[i].link_name && node.edges[j].kind is Prod;
            assert(nodes[n - 1].1.edges[j].target == now[i].target);
        }
    }
}

proof fn dropped_is_one_edge(
    kept: Seq<Seq<char>>,
    dependent: Seq<char>,
    edges: Seq<EdgeModel>,
    n: int,
    i: int,
)
    requires
        0 <= n <= edges.len(),
        0 <= i < dropped_of(kept, dependent, edges, n).len(),
    ensures
        ({
            let e = dropped_of(kept, dependent, edges, n)[i];
            &&& !kept.contains(e.target)
            &&& e.dependent == dependent
            &&& exists|j: int|
                0 <= j < n && (#[trigger] edges[j]).target == e.target && edges[j].link_name
                    == e.link_name && edges[j].kind is Prod
        }),
    decreases n,
{
    if n > 0 {
        let before = dropped_of(kept, dependent, edges, n - 1);
        let now = dropped_of(kept, dependent, edges, n);
        if i < before.len() {
            assert(now[i] == before[i]);
            dropped_is_one_edge(kept, dependent, edges, n - 1, i);
        } else {
            assert(edges[n - 1].target == now[i].target);
        }
    }
}

proof fn nowhere_is_listed(
    nodes: Table<NodeModel>,
    platforms: Table<PlatformModel>,
    n: int,
    k: Seq<char>,
)
    requires
        0 <= n <= nodes.len(),
    ensures
        excluded_everywhere(nodes, platforms, n).contains(k) <==> exists|i: int|
            0 <= i < n && (#[trigger] nodes[i]).0 == k && platforms_of(
                nodes[i].1,
                platforms,
                platforms.len() as int,
            ).len() == 0,
    decreases n,
{
    if n > 0 {
        nowhere_is_listed(nodes, platforms, n - 1, k);
        let before = excluded_everywhere(nodes, platforms, n - 1);
        let now = excluded_everywhere(nodes, platforms, n);
        if now.contains(k) && !before.contains(k) {
            let i = now.index_of(k);
            if i < before.len() {
                assert(before[i] == k);
            }
            assert(nodes[n - 1].0 == k);
        }
        if before.contains(k) {
            assert(now[before.index_of(k)] == k);
        }
        if nodes[n - 1].0 == k && platforms_of(
            nodes[n - 1].1,
            platforms,
            platforms.len() as int,
        ).len() == 0 {
            assert(now[now.len() - 1] == k);
        }
    }
}

proof fn edge_warning_stands_among(
    nodes: Table<NodeModel>,
    platforms: Table<PlatformModel>,
    n: int,
    p: int,
    i: int,
)
    requires
        0 <= p < n <= platforms.len(),
        0 <= i < view_of(nodes, platforms[p].1).dropped_required_edges.len(),
    ensures
        edge_warnings(nodes, platforms, n).contains(
            warning_of(
                platforms[p].0,
                view_of(nodes, platforms[p].1).dropped_required_edges[i],
            ),
        ),
    decreases n,
{
    let all = edge_warnings(nodes, platforms, n);
    let before = edge_warnings(nodes, platforms, n - 1);
    let w = warning_of(platforms[p].0, view_of(nodes, platforms[p].1).dropped_required_edges[i]);
    if p == n - 1 {
        assert(all[before.len() + i] == w);
    } else {
        edge_warning_stands_among(nodes, platforms, n - 1, p, i);
        assert(all[before.index_of(w)] == w);
    }
}

/// There is a warning for every edge that a platform's view drops, which names the
/// dependent, the target and the platform; and where any packages stand in no view, one
/// warning that names them all, and no other package.
pub proof fn warnings_name_what_is_lost(nodes: Table<NodeModel>, platforms: Table<PlatformModel>)
    requires
        keys_increase(nodes),
    ensures
        forall|p: int, i: int|
            0 <= p < platforms.len() && 0 <= i < view_of(
                nodes,
                platforms[p].1,
            ).dropped_required_edges.len() ==> warnings_of(nodes, platforms).contains(
                PlatformWarningModel::RequiredDependencyExcluded {
                    dependent: (#[trigger] view_of(
                        nodes,
                        platforms[p].1,
                    ).dropped_required_edges[i]).dependent,
                    target: view_of(nodes, platforms[p].1).dropped_required_edges[i].target,
                    platform: platforms[p].0,
                },
            ),
        forall|k: int|
            0 <= k < nodes.len() && (forall|p: int|
                0 <= p < platforms.len() ==> !view_of(
                    nodes,
                    (#[trigger] platforms[p]).1,
                ).nodes.contains(nodes[k].0)) ==> {
                let w = warnings_of(nodes, platforms).last();
                &&& warnings_of(nodes, platforms).len() > 0
                &&& w is ExcludedEverywhere
                &&& w->packages.contains((#[trigger] nodes[k]).0)
            },
        forall|k: int, p: int|
            0 <= k < nodes.len() && 0 <= p < platforms.len() && view_of(
                nodes,
                (#[trigger] platforms[p]).1,
            ).nodes.contains((#[trigger] nodes[k]).0) && warnings_of(nodes, platforms).len() > 0
                && warnings_of(nodes, platforms).last() is ExcludedEverywhere ==> !warnings_of(
                nodes,
                platforms,
            ).last()->packages.contains(nodes[k].0),
{
    let n = nodes.len() as int;
    let m = platforms.len() as int;
    let all = warnings_of(nodes, platforms);
    let dropped = edge_warnings(nodes, platforms, m);
    let nowhere = excluded_everywhere(nodes, platforms, n);
    assert forall|p: int, i: int|
        0 <= p < m && 0 <= i < view_of(
            nodes,
            platforms[p].1,
        ).dropped_required_edges.len() implies all.contains(
        PlatformWarningModel::RequiredDependencyExcluded {
            dependent: (#[trigger] view_of(
                nodes,
                platforms[p].1,
            ).dropped_required_edges[i]).dependent,
            target: view_of(nodes, platforms[p].1).dropped_required_edges[i].target,
            platform: platforms[p].0,
        },
    ) by {
        edge_warning_stands_among(nodes, platforms, m, p, i);
        let w = warning_of(
            platforms[p].0,
            view_of(nodes, platforms[p].1).dropped_required_edges[i],
        );
        assert(all[dropped.index_of(w)] == w);
    }
    assert forall|k: int| 0 <= k < n implies (platforms_of((#[trigger] nodes[k]).1, platforms, m).len()
        == 0 <==> forall|p: int|
        0 <= p < m ==> !view_of(nodes, (#[trigger] platforms[p]).1).nodes.contains(nodes[k].0)) by {
        let on = platforms_of(nodes[k].1, platforms, m);
        if on.len() > 0 {
            platforms_of_contains(nodes[k].1, platforms, m, on[0]);
            assert(on.contains(on[0]));
            let p = choose|p: int|
                0 <= p < m && (#[trigger] platforms[p]).0 == on[0] && meta_admits(
                    nodes[k].1.meta,
                    platforms[p].1,
                );
            kept_is_admitted(nodes, platforms[p].1, k);
            assert(view_of(nodes, platforms[p].1).nodes.contains(nodes[k].0));
        } else {
            assert forall|p: int| 0 <= p < m implies !view_of(
                nodes,
                (#[trigger] platforms[p]).1,
            ).nodes.contains(nodes[k].0) by {
                kept_is_admitted(nodes, platforms[p].1, k);
                platforms_of_contains(nodes[k].1, platforms, m, platforms[p].0);
                if meta_admits(nodes[k].1.meta, platforms[p].1) {
                    assert(on.contains(platforms[p].0));
                }
            }
        }
    }
    assert forall|k: int| 0 <= k < n implies (nowhere.contains((#[trigger] nodes[k]).0)
        <==> platforms_of(nodes[k].1, platforms, m).len() == 0) by {
        nowhere_is_listed(nodes, platforms, n, nodes[k].0);
        if nowhere.contains(nodes[k].0) {
            let i = choose|i: int|
                0 <= i < n && (#[trigger] nodes[i]).0 == nodes[k].0 && platforms_of(
                    nodes[i].1,
                    platforms,
                    m,
                ).len() == 0;
            key_index_is(nodes, i);
            key_index_is(nodes, k);
        }
    }
    if nowhere.len() == 0 && all.len() > 0 {
        edge_warnings_are_edges(nodes, platforms, m, all.len() - 1);
    }
}

proof fn edge_warnings_are_edges(
    nodes: Table<NodeModel>,
    platforms: Table<PlatformModel>,
    n: int,
    i: int,
)
    requires
        0 <= n <= platforms.len(),
        0 <= i < edge_warnings(nodes, platforms, n).len(),
    ensures
        edge_warnings(nodes, platforms, n)[i] is RequiredDependencyExcluded,
    decreases n,
{
    if n > 0 {
        let before = edge_warnings(nodes, platforms, n - 1);
        if i < before.len() {
            edge_warnings_are_edges(nodes, platforms, n - 1, i);
            assert(edge_warnings(nodes, platforms, n)[i] == before[i]);
        }
    }
}

} // verus!
