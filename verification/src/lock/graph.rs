//! The instance graph: one node per snapshot key.

use vstd::prelude::*;

use crate::dict::{
    has_key, increases_when_sorted, key_index, key_index_is, keys_increase, lookup, lookup_is_map,
    Dict, Duplicate,
};
use crate::error::{LockError, LockErrorModel};
use crate::lock::cycles::{
    every_cycle_is_reported, groups, groups_of, in_range, in_range_of, leads, listed,
    members_are_places, members_lead_to_each_other, number_rows, numbers, rows,
};
use crate::lock::snapshot_key::{
    base_text, canonical_of_parsed, canonical_text, groups_text, key_model, last_at, last_at_splits,
    next_open, next_open_skips, parse_key, parsed_holds_an_at, parsed_is_spellable, target_text,
    KeyModel, SnapshotKey,
};
use crate::lock::types::{
    ImporterDep, ImporterDepModel, ImporterModel, Lockfile, LockfileModel, PackageMeta,
    PackageMetaModel, SnapshotEntry, SnapshotEntryModel, Table,
};
use crate::text::{
    byte_len, chars_of, rank, starts_with, text_lt, text_lt_irreflexive, text_lt_total,
    text_lt_transitive, Rank,
};

verus! {

/// Whether a dependency is needed for its dependent to work.
#[derive(Debug, Clone, Copy, PartialEq, Eq, Structural)]
pub enum EdgeKind {
    Prod,
    Optional,
}

/// Which of an importer's groups a root comes from.
#[derive(Debug, Clone, Copy, PartialEq, Eq, Structural)]
pub enum RootKind {
    Prod,
    Dev,
    Optional,
}

/// One dependency of a package instance on another.
#[derive(Debug, PartialEq)]
pub struct Edge {
    /// The directory name under `node_modules/`. May differ from the target
    /// package's own name when the dependency is an npm alias.
    pub link_name: String,
    /// Canonical snapshot key of the dependency.
    pub target: String,
    pub kind: EdgeKind,
}

/// The mathematical value of an [`Edge`].
pub struct EdgeModel {
    pub link_name: Seq<char>,
    pub target: Seq<char>,
    pub kind: EdgeKind,
}

impl DeepView for Edge {
    type V = EdgeModel;

    open spec fn deep_view(&self) -> EdgeModel {
        EdgeModel { link_name: self.link_name@, target: self.target@, kind: self.kind }
    }
}

/// One package instance.
#[derive(Debug, PartialEq)]
pub struct Node {
    pub name: String,
    pub version: String,
    pub peers: Vec<String>,
    pub target_name: String,
    pub optional: bool,
    pub meta: PackageMeta,
    /// Sorted by `link_name`.
    pub edges: Vec<Edge>,
}

/// The mathematical value of a [`Node`].
pub struct NodeModel {
    pub name: Seq<char>,
    pub version: Seq<char>,
    pub peers: Seq<Seq<char>>,
    pub target_name: Seq<char>,
    pub optional: bool,
    pub meta: PackageMetaModel,
    pub edges: Seq<EdgeModel>,
}

impl DeepView for Node {
    type V = NodeModel;

    open spec fn deep_view(&self) -> NodeModel {
        NodeModel {
            name: self.name@,
            version: self.version@,
            peers: self.peers.deep_view(),
            target_name: self.target_name@,
            optional: self.optional,
            meta: self.meta.deep_view(),
            edges: self.edges.deep_view(),
        }
    }
}

/// One dependency of an importer.
#[derive(Debug, PartialEq)]
pub struct Root {
    pub importer: String,
    pub link_name: String,
    /// `None` for `link:`/`file:`/`workspace:` roots, which resolve to another
    /// importer rather than a package.
    pub target: Option<String>,
    pub specifier: String,
    pub kind: RootKind,
}

/// The mathematical value of a [`Root`].
pub struct RootModel {
    pub importer: Seq<char>,
    pub link_name: Seq<char>,
    pub target: Option<Seq<char>>,
    pub specifier: Seq<char>,
    pub kind: RootKind,
}

impl DeepView for Root {
    type V = RootModel;

    open spec fn deep_view(&self) -> RootModel {
        RootModel {
            importer: self.importer@,
            link_name: self.link_name@,
            target: self.target.deep_view(),
            specifier: self.specifier@,
            kind: self.kind,
        }
    }
}

/// Package instances, keyed by snapshot key, and what the importers ask for.
#[derive(Debug, PartialEq)]
pub struct Graph {
    /// Keyed by canonical snapshot key.
    pub nodes: Dict<Node>,
    pub roots: Vec<Root>,
    /// Dependency cycles: each is a group of packages that all lead to each other.
    /// Cycles are normal.
    pub cycles: Vec<Vec<String>>,
}

/// The mathematical value of a [`Graph`].
pub struct GraphModel {
    pub nodes: Table<NodeModel>,
    pub roots: Seq<RootModel>,
    pub cycles: Seq<Seq<Seq<char>>>,
}

impl DeepView for Graph {
    type V = GraphModel;

    open spec fn deep_view(&self) -> GraphModel {
        GraphModel {
            nodes: self.nodes.deep_view(),
            roots: self.roots.deep_view(),
            cycles: self.cycles.deep_view(),
        }
    }
}

// --- What a graph is --------------------------------------------------------

/// The snapshot key that a dependency named `link` with this value resolves to:
/// the value itself where it already names a package, else `link@value`.
pub open spec fn resolve_text(link: Seq<char>, value: Seq<char>) -> Seq<char> {
    if last_at(value, next_open(value, 0)) is Some {
        value
    } else {
        link + seq!['@'] + value
    }
}

/// The edge that one entry of a dependency table stands for.
pub open spec fn edge_of(entry: (Seq<char>, Seq<char>), kind: EdgeKind) -> EdgeModel {
    EdgeModel { link_name: entry.0, target: resolve_text(entry.0, entry.1), kind }
}

/// The edges of two dependency tables, merged by link name.
pub open spec fn merged_edges(prod: Table<Seq<char>>, opt: Table<Seq<char>>) -> Seq<EdgeModel>
    decreases prod.len() + opt.len(),
{
    if prod.len() == 0 && opt.len() == 0 {
        Seq::empty()
    } else if opt.len() == 0 || (prod.len() > 0 && !text_lt(opt[0].0, prod[0].0)) {
        seq![edge_of(prod[0], EdgeKind::Prod)] + merged_edges(prod.skip(1), opt)
    } else {
        seq![edge_of(opt[0], EdgeKind::Optional)] + merged_edges(prod, opt.skip(1))
    }
}

/// The node that a snapshot stands for, once its key and metadata are known.
pub open spec fn node_of(k: KeyModel, entry: SnapshotEntryModel, meta: PackageMetaModel) -> NodeModel {
    NodeModel {
        name: k.name,
        version: k.version,
        peers: k.peers.map_values(|p: KeyModel| canonical_text(p)),
        target_name: target_text(canonical_text(k)),
        optional: entry.optional,
        meta,
        edges: merged_edges(entry.dependencies, entry.optional_dependencies),
    }
}

/// The node of the `i`-th snapshot, or why it has none.
pub open spec fn node_result(lock: LockfileModel, i: int) -> Result<NodeModel, LockErrorModel> {
    let raw = lock.snapshots[i].0;
    match parse_key(raw, 0) {
        Err(f) => Err(
            LockErrorModel::KeyParse {
                key: raw,
                offset: byte_len(raw.take(f.at)) as int,
                reason: f.reason,
            },
        ),
        Ok(k) => match lookup(lock.packages, base_text(k)) {
            None => Err(LockErrorModel::MissingPackageMeta { snapshot: raw, base: base_text(k) }),
            Some(meta) => Ok(node_of(k, lock.snapshots[i].1, meta)),
        },
    }
}

/// The first of the first `n` snapshots whose node has this target name.
pub open spec fn owner_of(lock: LockfileModel, n: int, target: Seq<char>) -> Option<Seq<char>>
    decreases n,
{
    if n <= 0 {
        None
    } else if owner_of(lock, n - 1, target) is Some {
        owner_of(lock, n - 1, target)
    } else {
        match node_result(lock, n - 1) {
            Ok(node) => if node.target_name == target {
                Some(lock.snapshots[n - 1].0)
            } else {
                None
            },
            Err(_) => None,
        }
    }
}

/// The first link name from the `i`-th required dependency on that stands among the
/// optional ones too.
pub open spec fn shared_link(prod: Table<Seq<char>>, opt: Table<Seq<char>>, i: int) -> Option<
    Seq<char>,
>
    decreases prod.len() - i,
{
    if i < 0 || i >= prod.len() {
        None
    } else if has_key(opt, prod[i].0) {
        Some(prod[i].0)
    } else {
        shared_link(prod, opt, i + 1)
    }
}

/// What is wrong with the `i`-th snapshot, in the light of those before it: its key,
/// its metadata, its target name, then a link name that it lists twice.
pub open spec fn snapshot_error(lock: LockfileModel, i: int) -> Option<LockErrorModel> {
    match node_result(lock, i) {
        Err(e) => Some(e),
        Ok(node) => match owner_of(lock, i, node.target_name) {
            Some(other) => Some(
                LockErrorModel::TargetNameCollision {
                    a: other,
                    b: lock.snapshots[i].0,
                    target: node.target_name,
                },
            ),
            None => match shared_link(
                lock.snapshots[i].1.dependencies,
                lock.snapshots[i].1.optional_dependencies,
                0,
            ) {
                Some(link_name) => Some(
                    LockErrorModel::DuplicateLinkName {
                        snapshot: lock.snapshots[i].0,
                        link_name,
                    },
                ),
                None => None,
            },
        },
    }
}

/// The first thing wrong with a snapshot from the `i`-th on.
pub open spec fn first_snapshot_error(lock: LockfileModel, i: int) -> Option<LockErrorModel>
    decreases lock.snapshots.len() - i,
{
    if i < 0 || i >= lock.snapshots.len() {
        None
    } else if snapshot_error(lock, i) is Some {
        snapshot_error(lock, i)
    } else {
        first_snapshot_error(lock, i + 1)
    }
}

/// The nodes of the first `n` snapshots, keyed as those are.
pub open spec fn nodes_of(lock: LockfileModel, n: int) -> Table<NodeModel> {
    Seq::new(
        n as nat,
        |i: int| (lock.snapshots[i].0, node_result(lock, i)->Ok_0),
    )
}

/// The first edge from the `j`-th on whose target is no node.
pub open spec fn first_dangling<T>(
    nodes: Table<T>,
    from: Seq<char>,
    edges: Seq<EdgeModel>,
    j: int,
) -> Option<LockErrorModel>
    decreases edges.len() - j,
{
    if j < 0 || j >= edges.len() {
        None
    } else if !has_key(nodes, edges[j].target) {
        Some(
            LockErrorModel::UnresolvedEdge {
                from,
                link_name: edges[j].link_name,
                resolved: edges[j].target,
            },
        )
    } else {
        first_dangling(nodes, from, edges, j + 1)
    }
}

/// The first edge of a node from the `i`-th on whose target is no node.
pub open spec fn first_edge_error(nodes: Table<NodeModel>, i: int) -> Option<LockErrorModel>
    decreases nodes.len() - i,
{
    if i < 0 || i >= nodes.len() {
        None
    } else if first_dangling(nodes, nodes[i].0, nodes[i].1.edges, 0) is Some {
        first_dangling(nodes, nodes[i].0, nodes[i].1.edges, 0)
    } else {
        first_edge_error(nodes, i + 1)
    }
}

/// A dependency on another importer rather than on a package.
pub open spec fn links_importer(dep: ImporterDepModel) -> bool {
    ||| "workspace:"@.is_prefix_of(dep.specifier)
    ||| "link:"@.is_prefix_of(dep.specifier)
    ||| "file:"@.is_prefix_of(dep.specifier)
    ||| "link:"@.is_prefix_of(dep.version)
    ||| "file:"@.is_prefix_of(dep.version)
}

/// The root that one entry of an importer's group stands for.
pub open spec fn root_of(
    importer: Seq<char>,
    entry: (Seq<char>, ImporterDepModel),
    kind: RootKind,
) -> RootModel {
    RootModel {
        importer,
        link_name: entry.0,
        target: if links_importer(entry.1) {
            None
        } else {
            Some(resolve_text(entry.0, entry.1.version))
        },
        specifier: entry.1.specifier,
        kind,
    }
}

/// The roots of one group of an importer.
pub open spec fn group_roots(
    importer: Seq<char>,
    deps: Table<ImporterDepModel>,
    kind: RootKind,
) -> Seq<RootModel> {
    deps.map_values(|entry: (Seq<char>, ImporterDepModel)| root_of(importer, entry, kind))
}

/// The roots of an importer: required, then development, then optional ones.
pub open spec fn importer_roots(entry: (Seq<char>, ImporterModel)) -> Seq<RootModel> {
    group_roots(entry.0, entry.1.dependencies, RootKind::Prod) + group_roots(
        entry.0,
        entry.1.dev_dependencies,
        RootKind::Dev,
    ) + group_roots(entry.0, entry.1.optional_dependencies, RootKind::Optional)
}

/// The roots of the first `n` importers.
pub open spec fn roots_of(importers: Table<ImporterModel>, n: int) -> Seq<RootModel>
    decreases n,
{
    if n <= 0 {
        Seq::empty()
    } else {
        roots_of(importers, n - 1) + importer_roots(importers[n - 1])
    }
}

/// The first root from the `j`-th on whose target is no node.
pub open spec fn first_root_error(
    nodes: Table<NodeModel>,
    roots: Seq<RootModel>,
    j: int,
) -> Option<LockErrorModel>
    decreases roots.len() - j,
{
    if j < 0 || j >= roots.len() {
        None
    } else if roots[j].target is Some && !has_key(nodes, roots[j].target->Some_0) {
        Some(
            LockErrorModel::UnresolvedEdge {
                from: "importer "@ + roots[j].importer,
                link_name: roots[j].link_name,
                resolved: roots[j].target->Some_0,
            },
        )
    } else {
        first_root_error(nodes, roots, j + 1)
    }
}

/// Which node depends on which, by their places.
pub open spec fn depends(nodes: Table<NodeModel>) -> spec_fn(int, int) -> bool {
    |i: int, j: int|
        0 <= i < nodes.len() && 0 <= j < nodes.len() && exists|e: int|
            0 <= e < nodes[i].1.edges.len() && (#[trigger] nodes[i].1.edges[e]).target == nodes[j].0
}

/// The keys of the nodes at these places.
pub open spec fn keys_at(nodes: Table<NodeModel>, places: Seq<int>) -> Seq<Seq<char>> {
    places.map_values(|i: int| nodes[i].0)
}

/// All groups of nodes that lead to each other.
pub open spec fn cycles_of(nodes: Table<NodeModel>) -> Seq<Seq<Seq<char>>> {
    groups_of(depends(nodes), nodes.len() as int, nodes.len() as int).map_values(
        |g: Seq<int>| keys_at(nodes, g),
    )
}

/// The graph of a lockfile, or the first thing that is wrong with it: with a
/// snapshot, then with an edge, then with a root.
pub open spec fn graph_of(lock: LockfileModel) -> Result<GraphModel, LockErrorModel> {
    let nodes = nodes_of(lock, lock.snapshots.len() as int);
    let roots = roots_of(lock.importers, lock.importers.len() as int);
    match (
        first_snapshot_error(lock, 0),
        first_edge_error(nodes, 0),
        first_root_error(nodes, roots, 0),
    ) {
        (Some(e), _, _) => Err(e),
        (None, Some(e), _) => Err(e),
        (None, None, Some(e)) => Err(e),
        (None, None, None) => Ok(GraphModel { nodes, roots, cycles: cycles_of(nodes) }),
    }
}

// --- Building it --------------------------------------------------------------

/// Resolve one dependency edge to a snapshot key.
///
/// The value is not always a bare version: npm aliases encode a complete
/// `name@version`, in which case `link_name` is only a directory name:
///
/// ```text
/// string-width:     5.1.2                -> string-width@5.1.2
/// string-width-cjs: string-width@4.2.3   -> string-width@4.2.3
/// eslint:           9.39.2(jiti@2.6.1)   -> eslint@9.39.2(jiti@2.6.1)
/// ```
pub fn resolve_edge(link_name: &str, value: &str) -> (r: String)
    ensures
        r@ == resolve_text(link_name@, value@),
{
    let chars = chars_of(value);
    let cut: usize = strip_peer_suffix(&chars);
    let mut at: usize = cut;
    while at > 1 && chars[at - 1] != '@'
        invariant
            chars@ == value@,
            at <= cut <= chars.len(),
            last_at(value@, cut as int) == last_at(value@, at as int),
        decreases at,
    {
        at -= 1;
    }
    if at > 1 {
        value.to_owned()
    } else {
        let mut out = link_name.to_owned();
        out.push('@');
        out.append(value);
        proof {
            assert(out@ =~= link_name@ + seq!['@'] + value@);
        }
        out
    }
}

/// Where the peer suffix of an edge value starts, or its end.
fn strip_peer_suffix(chars: &Vec<char>) -> (r: usize)
    ensures
        r <= chars.len(),
        r == next_open(chars@, 0),
{
    let mut i: usize = 0;
    while i < chars.len() && chars[i] != '('
        invariant
            i <= chars.len(),
            next_open(chars@, 0) == next_open(chars@, i as int),
        decreases chars.len() - i,
    {
        i += 1;
    }
    i
}

/// True for a dependency that points at another importer rather than a package.
fn is_link_specifier(specifier: &str, version: &str) -> (r: bool)
    ensures
        r == links_importer(ImporterDepModel { specifier: specifier@, version: version@ }),
{
    starts_with(specifier, "workspace:") || starts_with(specifier, "link:") || starts_with(
        specifier,
        "file:",
    ) || starts_with(version, "link:") || starts_with(version, "file:")
}

fn make_edge(link_name: &String, value: &String, kind: EdgeKind) -> (r: Edge)
    ensures
        r.deep_view() == edge_of((link_name@, value@), kind),
{
    Edge { link_name: link_name.clone(), target: resolve_edge(link_name, value), kind }
}

/// The edges of a snapshot, by link name.
fn snapshot_edges(entry: &SnapshotEntry) -> (r: Vec<Edge>)
    ensures
        r.deep_view() == merged_edges(
            entry.dependencies.deep_view(),
            entry.optional_dependencies.deep_view(),
        ),
{
    let ghost p = entry.dependencies.deep_view();
    let ghost o = entry.optional_dependencies.deep_view();
    let mut out: Vec<Edge> = Vec::new();
    let mut i: usize = 0;
    let mut j: usize = 0;
    proof {
        assert(p.skip(0) =~= p);
        assert(o.skip(0) =~= o);
        assert(out.deep_view() + merged_edges(p, o) =~= merged_edges(p, o));
    }
    while i < entry.dependencies.len() || j < entry.optional_dependencies.len()
        invariant
            p == entry.dependencies.deep_view(),
            o == entry.optional_dependencies.deep_view(),
            i <= p.len(),
            j <= o.len(),
            merged_edges(p, o) == out.deep_view() + merged_edges(p.skip(i as int), o.skip(j as int)),
        decreases p.len() - i + o.len() - j,
    {
        let take_prod = j >= entry.optional_dependencies.len() || (i < entry.dependencies.len()
            && match rank(entry.optional_dependencies.key(j), entry.dependencies.key(i)) {
            Rank::Before => false,
            _ => true,
        });
        let ghost before = out.deep_view();
        let ghost ps = p.skip(i as int);
        let ghost os = o.skip(j as int);
        if take_prod {
            let e = make_edge(
                entry.dependencies.key(i),
                entry.dependencies.value(i),
                EdgeKind::Prod,
            );
            assert(ps[0] == p[i as int]);
            assert(e.deep_view() == edge_of(ps[0], EdgeKind::Prod));
            out.push(e);
            i += 1;
            assert(ps.skip(1) =~= p.skip(i as int));
        } else {
            let e = make_edge(
                entry.optional_dependencies.key(j),
                entry.optional_dependencies.value(j),
                EdgeKind::Optional,
            );
            assert(os[0] == o[j as int]);
            out.push(e);
            j += 1;
            assert(os.skip(1) =~= o.skip(j as int));
        }
        proof {
            let rest = merged_edges(p.skip(i as int), o.skip(j as int));
            let last = out.deep_view().last();
            assert(out.deep_view() =~= before.push(last));
            assert(merged_edges(ps, os) == seq![last] + rest);
            assert(before + (seq![last] + rest) =~= out.deep_view() + rest);
        }
    }
    proof {
        assert(out.deep_view() + merged_edges(p.skip(i as int), o.skip(j as int)) =~= out.deep_view());
    }
    out
}

/// Finds a link name that a snapshot lists in both of its tables.
fn find_shared_link(entry: &SnapshotEntry) -> (r: Option<String>)
    ensures
        match r {
            Some(link) => shared_link(
                entry.dependencies.deep_view(),
                entry.optional_dependencies.deep_view(),
                0,
            ) == Some(link@),
            None => shared_link(
                entry.dependencies.deep_view(),
                entry.optional_dependencies.deep_view(),
                0,
            ) is None,
        },
{
    let ghost p = entry.dependencies.deep_view();
    let ghost o = entry.optional_dependencies.deep_view();
    let mut i: usize = 0;
    while i < entry.dependencies.len()
        invariant
            p == entry.dependencies.deep_view(),
            o == entry.optional_dependencies.deep_view(),
            i <= p.len(),
            shared_link(p, o, 0) == shared_link(p, o, i as int),
        decreases p.len() - i,
    {
        let link = entry.dependencies.key(i);
        assert(p[i as int].0 == link@);
        if entry.optional_dependencies.contains_key(link) {
            return Some(link.clone());
        }
        i += 1;
    }
    None
}

fn peer_texts(peers: &Vec<SnapshotKey>) -> (r: Vec<String>)
    ensures
        r.deep_view() == peers@.map_values(|p: SnapshotKey| canonical_text(key_model(p))),
{
    let mut out: Vec<String> = Vec::new();
    let mut i: usize = 0;
    while i < peers.len()
        invariant
            i <= peers.len(),
            out.len() == i,
            forall|k: int|
                0 <= k < i ==> (#[trigger] out@[k])@ == canonical_text(key_model(peers@[k])),
        decreases peers.len() - i,
    {
        out.push(peers[i].canonical());
        i += 1;
    }
    proof {
        assert(out.deep_view() =~= peers@.map_values(|p: SnapshotKey| canonical_text(key_model(p))));
    }
    out
}

/// The node of the `i`-th snapshot.
fn build_node(lockfile: &Lockfile, i: usize) -> (r: Result<Node, LockError>)
    requires
        i < lockfile.snapshots@.len(),
    ensures
        match (node_result(lockfile.deep_view(), i as int), r) {
            (Ok(m), Ok(n)) => n.deep_view() == m,
            (Err(m), Err(e)) => e.deep_view() == m,
            _ => false,
        },
{
    let raw_key = lockfile.snapshots.key(i);
    let entry = lockfile.snapshots.value(i);
    let ghost lock = lockfile.deep_view();
    assert(lock.snapshots[i as int] == (raw_key@, entry.deep_view()));
    let key = match SnapshotKey::parse(raw_key) {
        Ok(k) => k,
        Err(e) => {
            return Err(
                LockError::KeyParse { key: e.key, offset: e.offset, reason: e.reason.to_owned() },
            );
        },
    };
    let base = key.base();
    let meta = match lockfile.packages.get(&base) {
        Some(m) => m.duplicate(),
        None => {
            return Err(LockError::MissingPackageMeta { snapshot: raw_key.clone(), base });
        },
    };
    let node = Node {
        name: key.name.clone(),
        version: key.version.clone(),
        peers: peer_texts(&key.peers),
        target_name: key.target_name(),
        optional: entry.optional,
        meta,
        edges: snapshot_edges(entry),
    };
    proof {
        let k = key_model(key);
        assert(node.deep_view().peers =~= k.peers.map_values(|p: KeyModel| canonical_text(p)));
    }
    Ok(node)
}

/// Appends the roots of one group of an importer.
fn push_roots(roots: &mut Vec<Root>, importer: &String, deps: &Dict<ImporterDep>, kind: RootKind)
    ensures
        final(roots).deep_view() == old(roots).deep_view() + group_roots(
            importer@,
            deps.deep_view(),
            kind,
        ),
{
    let ghost before = roots.deep_view();
    let ghost want = group_roots(importer@, deps.deep_view(), kind);
    let mut i: usize = 0;
    proof {
        assert(before + want.take(0) =~= before);
    }
    while i < deps.len()
        invariant
            i <= deps@.len(),
            want == group_roots(importer@, deps.deep_view(), kind),
            roots.deep_view() == before + want.take(i as int),
        decreases deps@.len() - i,
    {
        let link_name = deps.key(i);
        let dep = deps.value(i);
        let ghost prior = roots.deep_view();
        let target = if is_link_specifier(&dep.specifier, &dep.version) {
            None
        } else {
            Some(resolve_edge(link_name, &dep.version))
        };
        roots.push(
            Root {
                importer: importer.clone(),
                link_name: link_name.clone(),
                target,
                specifier: dep.specifier.clone(),
                kind,
            },
        );
        proof {
            assert(deps.deep_view()[i as int] == (link_name@, dep.deep_view()));
            assert(roots.deep_view() =~= prior.push(want[i as int]));
            assert(want.take(i + 1) =~= want.take(i as int).push(want[i as int]));
            assert(before + want.take(i + 1) =~= (before + want.take(i as int)).push(want[i as int]));
        }
        i += 1;
    }
    proof {
        assert(want.take(i as int) =~= want);
    }
}

/// The places of a node's dependencies.
fn successors(nodes: &Dict<Node>, i: usize) -> (r: Vec<usize>)
    requires
        i < nodes.deep_view().len(),
    ensures
        forall|k: int| 0 <= k < r.len() ==> (#[trigger] r@[k]) < nodes.deep_view().len(),
        forall|j: int|
            #[trigger] depends(nodes.deep_view())(i as int, j) <==> exists|k: int|
                0 <= k < r.len() && #[trigger] r@[k] == j,
{
    let ghost table = nodes.deep_view();
    let node = nodes.value(i);
    let ghost edges = table[i as int].1.edges;
    let mut out: Vec<usize> = Vec::new();
    let mut e: usize = 0;
    proof {
        use_type_invariant(nodes);
        increases_when_sorted(*nodes);
        assert(edges == node.edges.deep_view());
    }
    while e < node.edges.len()
        invariant
            table == nodes.deep_view(),
            keys_increase(table),
            i < table.len(),
            edges == node.edges.deep_view(),
            e <= edges.len(),
            forall|k: int| 0 <= k < out.len() ==> (#[trigger] out@[k]) < table.len(),
            forall|k: int|
                0 <= k < out.len() ==> exists|q: int|
                    0 <= q < e && (#[trigger] edges[q]).target == table[#[trigger] out@[k] as int].0,
            forall|q: int, j: int|
                0 <= q < e && 0 <= j < table.len() && (#[trigger] edges[q]).target == (
                #[trigger] table[j]).0 ==> exists|k: int|
                    0 <= k < out.len() && #[trigger] out@[k] == j,
        decreases edges.len() - e,
    {
        let target = &node.edges[e].target;
        assert(edges[e as int].target == target@);
        let ghost before = out@;
        if let Some(p) = nodes.position(target) {
            out.push(p);
            proof {
                assert forall|q: int, j: int|
                    0 <= q < e + 1 && 0 <= j < table.len() && (#[trigger] edges[q]).target == (
                    #[trigger] table[j]).0 implies exists|k: int|
                    0 <= k < out.len() && #[trigger] out@[k] == j by {
                    if q < e {
                        let k = choose|k: int| 0 <= k < before.len() && #[trigger] before[k] == j;
                        assert(out@[k] == j);
                    } else {
                        key_index_is(table, j);
                        key_index_is(table, p as int);
                        assert(out@[before.len() as int] == j);
                    }
                }
                assert forall|k: int| 0 <= k < out.len() implies exists|q: int|
                    0 <= q < e + 1 && (#[trigger] edges[q]).target == table[
                        #[trigger] out@[k] as int].0 by {
                    if k < before.len() {
                        assert(out@[k] == before[k]);
                        let q = choose|q: int|
                            0 <= q < e && (#[trigger] edges[q]).target == table[before[k] as int].0;
                        assert(edges[q].target == table[out@[k] as int].0);
                    } else {
                        assert(edges[e as int].target == table[out@[k] as int].0);
                    }
                }
            }
        }
        e += 1;
    }
    proof {
        assert forall|j: int|
            #[trigger] depends(table)(i as int, j) <==> exists|k: int| 0 <= k < out.len() && #[trigger] out@[k] == j by {
            if depends(table)(i as int, j) {
                let q = choose|q: int|
                    0 <= q < table[i as int].1.edges.len() && (
                    #[trigger] table[i as int].1.edges[q]).target == table[j].0;
                assert(edges[q].target == table[j].0);
            }
            if exists|k: int| 0 <= k < out.len() && #[trigger] out@[k] == j {
                let k = choose|k: int| 0 <= k < out.len() && #[trigger] out@[k] == j;
                let q = choose|q: int|
                    0 <= q < edges.len() && (#[trigger] edges[q]).target == table[out@[k] as int].0;
                assert(table[i as int].1.edges[q].target == table[j].0);
            }
        }
    }
    out
}

/// Finds the dependency cycles among nodes.
pub fn find_cycles(nodes: &Dict<Node>) -> (r: Vec<Vec<String>>)
    ensures
        r.deep_view() == cycles_of(nodes.deep_view()),
{
    let ghost table = nodes.deep_view();
    let mut lists: Vec<Vec<usize>> = Vec::new();
    let mut i: usize = 0;
    while i < nodes.len()
        invariant
            table == nodes.deep_view(),
            i <= table.len(),
            lists.len() == i,
            forall|a: int, k: int|
                0 <= a < i && 0 <= k < lists@[a]@.len() ==> (#[trigger] lists@[a]@[k])
                    < table.len(),
            forall|a: int, j: int|
                0 <= a < i ==> (#[trigger] depends(table)(a, j) <==> exists|k: int|
                    0 <= k < lists@[a]@.len() && #[trigger] lists@[a]@[k] == j),
        decreases table.len() - i,
    {
        let ghost before = lists@;
        let row = successors(nodes, i);
        let ghost own = row@;
        lists.push(row);
        i += 1;
        proof {
            assert forall|a: int, j: int| 0 <= a < i implies (#[trigger] depends(table)(a, j)
                <==> exists|k: int|
                0 <= k < lists@[a]@.len() && #[trigger] lists@[a]@[k] == j) by {
                if a < i - 1 {
                    assert(lists@[a] == before[a]);
                    assert(depends(table)(a, j) <==> exists|k: int|
                        0 <= k < before[a]@.len() && #[trigger] before[a]@[k] == j);
                } else {
                    assert(lists@[a]@ == own);
                    assert(depends(table)(a, j) <==> exists|k: int|
                        0 <= k < own.len() && #[trigger] own[k] == j);
                    if depends(table)(a, j) {
                        let k = choose|k: int| 0 <= k < own.len() && #[trigger] own[k] == j;
                        assert(lists@[a]@[k] == j);
                    }
                    if exists|k: int| 0 <= k < lists@[a]@.len() && #[trigger] lists@[a]@[k] == j {
                        let k = choose|k: int|
                            0 <= k < lists@[a]@.len() && #[trigger] lists@[a]@[k] == j;
                        assert(own[k] == j);
                    }
                }
            }
        }
    }
    proof {
        let all = rows(lists@);
        assert(in_range(all));
        assert forall|a: int, j: int| #[trigger] listed(all)(a, j) == depends(table)(a, j) by {
            if 0 <= a < table.len() {
                assert(all[a] == lists@[a]@);
                assert(depends(table)(a, j) <==> exists|k: int|
                    0 <= k < lists@[a]@.len() && #[trigger] lists@[a]@[k] == j);
            }
        }
        assert(listed(all) =~= depends(table));
    }
    let found = groups(&lists);
    let ghost want = cycles_of(table);
    let ghost places = number_rows(found@);
    let mut out: Vec<Vec<String>> = Vec::new();
    let mut g: usize = 0;
    assert(out.deep_view() =~= want.take(0));
    while g < found.len()
        invariant
            table == nodes.deep_view(),
            places == number_rows(found@),
            want == places.map_values(|p: Seq<int>| keys_at(table, p)),
            in_range_of(found@, table.len() as int),
            g <= found.len(),
            out.deep_view() == want.take(g as int),
        decreases found.len() - g,
    {
        let ghost prior = out.deep_view();
        let row = &found[g];
        let ghost keys = keys_at(table, numbers(row@));
        let mut names: Vec<String> = Vec::new();
        let mut k: usize = 0;
        assert(names.deep_view() =~= keys.take(0));
        while k < row.len()
            invariant
                table == nodes.deep_view(),
                keys == keys_at(table, numbers(row@)),
                forall|q: int| 0 <= q < row.len() ==> (#[trigger] row@[q]) < table.len(),
                k <= row.len(),
                names.deep_view() == keys.take(k as int),
            decreases row.len() - k,
        {
            let ghost so_far = names.deep_view();
            assert(row@[k as int] < table.len());
            let key = nodes.key(row[k]);
            names.push(key.clone());
            k += 1;
            assert(names.deep_view() =~= so_far.push(keys[k - 1]));
            assert(keys.take(k as int) =~= so_far.push(keys[k - 1]));
        }
        assert(keys.take(k as int) =~= keys);
        out.push(names);
        g += 1;
        proof {
            assert(places[g - 1] == numbers(row@));
            assert(out.deep_view() =~= prior.push(keys));
            assert(want.take(g as int) =~= prior.push(keys));
        }
    }
    assert(want.take(g as int) =~= want);
    out
}

impl Graph {
    /// Builds the graph of a lockfile.
    pub fn build(lockfile: &Lockfile) -> (r: Result<Self, LockError>)
        ensures
            match (graph_of(lockfile.deep_view()), r) {
                (Ok(m), Ok(g)) => g.deep_view() == m,
                (Err(m), Err(e)) => e.deep_view() == m,
                _ => false,
            },
    {
        let ghost lock = lockfile.deep_view();
        let mut nodes: Dict<Node> = Dict::new();
        let mut by_target: Dict<String> = Dict::new();
        let mut i: usize = 0;
        proof {
            use_type_invariant(&lockfile.snapshots);
            assert(nodes_of(lock, 0) =~= Seq::<(Seq<char>, NodeModel)>::empty());
        }
        while i < lockfile.snapshots.len()
            invariant
                lock == lockfile.deep_view(),
                lockfile.snapshots.sorted(),
                i <= lock.snapshots.len(),
                first_snapshot_error(lock, 0) == first_snapshot_error(lock, i as int),
                nodes.deep_view() == nodes_of(lock, i as int),
                forall|t: Seq<char>|
                    #[trigger] lookup(by_target.deep_view(), t) == owner_of(lock, i as int, t),
            decreases lock.snapshots.len() - i,
        {
            let raw_key = lockfile.snapshots.key(i);
            let node = match build_node(lockfile, i) {
                Ok(n) => n,
                Err(e) => {
                    return Err(e);
                },
            };
            let ghost m = node.deep_view();
            if let Some(other) = by_target.get(&node.target_name) {
                return Err(
                    LockError::TargetNameCollision {
                        a: other.clone(),
                        b: raw_key.clone(),
                        target: node.target_name,
                    },
                );
            }
            let entry = lockfile.snapshots.value(i);
            assert(lock.snapshots[i as int] == (raw_key@, entry.deep_view()));
            if let Some(link_name) = find_shared_link(entry) {
                return Err(LockError::DuplicateLinkName { snapshot: raw_key.clone(), link_name });
            }
            let ghost owners = by_target.deep_view();
            by_target.insert(node.target_name.clone(), raw_key.clone());
            proof {
                let after = by_target.deep_view();
                assert forall|t: Seq<char>| #[trigger] lookup(after, t) == owner_of(lock, i + 1, t) by {
                    lookup_is_map(owners, t);
                    lookup_is_map(after, t);
                    assert(lookup(owners, t) == owner_of(lock, i as int, t));
                }
            }
            let ghost done = nodes.deep_view();
            proof {
                assert forall|k: int| 0 <= k < done.len() implies text_lt((#[trigger] done[k]).0, raw_key@) by {
                    assert(lock.snapshots[k].0 == lockfile.snapshots@[k].0@);
                }
            }
            nodes.insert(raw_key.clone(), node);
            i += 1;
            proof {
                assert(nodes.deep_view() =~= nodes_of(lock, i as int));
            }
        }
        let ghost all = nodes_of(lock, lock.snapshots.len() as int);
        // Every edge target is checked once all nodes exist, so a forward
        // reference is not mistaken for a dangling one.
        i = 0;
        while i < nodes.len()
            invariant
                nodes.deep_view() == all,
                i <= all.len(),
                lock == lockfile.deep_view(),
                all == nodes_of(lock, lock.snapshots.len() as int),
                first_snapshot_error(lock, 0) is None,
                first_edge_error(all, 0) == first_edge_error(all, i as int),
            decreases all.len() - i,
        {
            let node = nodes.value(i);
            assert(all[i as int].1 == node.deep_view());
            let ghost from = all[i as int].0;
            let ghost edges = all[i as int].1.edges;
            let mut j: usize = 0;
            while j < node.edges.len()
                invariant
                    nodes.deep_view() == all,
                    i < all.len(),
                    lock == lockfile.deep_view(),
                    all == nodes_of(lock, lock.snapshots.len() as int),
                    first_snapshot_error(lock, 0) is None,
                    first_edge_error(all, 0) == first_edge_error(all, i as int),
                    node.deep_view() == all[i as int].1,
                    from == all[i as int].0,
                    edges == node.edges.deep_view(),
                    j <= edges.len(),
                    first_dangling(all, from, edges, 0) == first_dangling(all, from, edges, j as int),
                decreases edges.len() - j,
            {
                let edge = &node.edges[j];
                assert(edges[j as int] == edge.deep_view());
                if !nodes.contains_key(&edge.target) {
                    return Err(
                        LockError::UnresolvedEdge {
                            from: nodes.key(i).clone(),
                            link_name: edge.link_name.clone(),
                            resolved: edge.target.clone(),
                        },
                    );
                }
                j += 1;
            }
            i += 1;
        }
        let mut roots: Vec<Root> = Vec::new();
        let ghost importers = lock.importers;
        proof {
            assert(roots.deep_view() =~= roots_of(importers, 0));
        }
        i = 0;
        while i < lockfile.importers.len()
            invariant
                importers == lockfile.importers.deep_view(),
                i <= importers.len(),
                roots.deep_view() == roots_of(importers, i as int),
            decreases importers.len() - i,
        {
            let importer = lockfile.importers.key(i);
            let imp = lockfile.importers.value(i);
            assert(importers[i as int] == (importer@, imp.deep_view()));
            let ghost before = roots.deep_view();
            push_roots(&mut roots, importer, &imp.dependencies, RootKind::Prod);
            push_roots(&mut roots, importer, &imp.dev_dependencies, RootKind::Dev);
            push_roots(&mut roots, importer, &imp.optional_dependencies, RootKind::Optional);
            proof {
                assert(roots.deep_view() =~= before + importer_roots(importers[i as int]));
            }
            i += 1;
        }
        let ghost asked = roots_of(importers, importers.len() as int);
        i = 0;
        while i < roots.len()
            invariant
                nodes.deep_view() == all,
                roots.deep_view() == asked,
                i <= asked.len(),
                lock == lockfile.deep_view(),
                importers == lock.importers,
                asked == roots_of(importers, importers.len() as int),
                all == nodes_of(lock, lock.snapshots.len() as int),
                first_snapshot_error(lock, 0) is None,
                first_edge_error(all, 0) is None,
                first_root_error(all, asked, 0) == first_root_error(all, asked, i as int),
            decreases asked.len() - i,
        {
            let root = &roots[i];
            assert(asked[i as int] == root.deep_view());
            if let Some(t) = &root.target {
                if !nodes.contains_key(t) {
                    let mut from = "importer ".to_owned();
                    from.append(root.importer.as_str());
                    return Err(
                        LockError::UnresolvedEdge {
                            from,
                            link_name: root.link_name.clone(),
                            resolved: t.clone(),
                        },
                    );
                }
            }
            i += 1;
        }
        let cycles = find_cycles(&nodes);
        Ok(Graph { nodes, roots, cycles })
    }
}

// --- Laws -----------------------------------------------------------------------

/// One of the two dependency tables has the entry that this edge stands for.
pub open spec fn edge_from(prod: Table<Seq<char>>, opt: Table<Seq<char>>, e: EdgeModel) -> bool {
    ||| exists|i: int| 0 <= i < prod.len() && e == edge_of(#[trigger] prod[i], EdgeKind::Prod)
    ||| exists|i: int| 0 <= i < opt.len() && e == edge_of(#[trigger] opt[i], EdgeKind::Optional)
}

/// No entry is lost or added: there are as many edges as dependencies, and each
/// edge is one of them.
pub proof fn edges_are_the_dependencies(prod: Table<Seq<char>>, opt: Table<Seq<char>>)
    ensures
        merged_edges(prod, opt).len() == prod.len() + opt.len(),
        forall|i: int|
            0 <= i < merged_edges(prod, opt).len() ==> edge_from(
                prod,
                opt,
                #[trigger] merged_edges(prod, opt)[i],
            ),
        forall|i: int|
            0 <= i < prod.len() ==> merged_edges(prod, opt).contains(
                edge_of(#[trigger] prod[i], EdgeKind::Prod),
            ),
        forall|i: int|
            0 <= i < opt.len() ==> merged_edges(prod, opt).contains(
                edge_of(#[trigger] opt[i], EdgeKind::Optional),
            ),
    decreases prod.len() + opt.len(),
{
    let all = merged_edges(prod, opt);
    if prod.len() == 0 && opt.len() == 0 {
    } else if opt.len() == 0 || (prod.len() > 0 && !text_lt(opt[0].0, prod[0].0)) {
        let rest = merged_edges(prod.skip(1), opt);
        edges_are_the_dependencies(prod.skip(1), opt);
        assert(all[0] == edge_of(prod[0], EdgeKind::Prod));
        assert forall|i: int| 0 <= i < all.len() implies edge_from(prod, opt, #[trigger] all[i]) by {
            if i > 0 {
                assert(all[i] == rest[i - 1]);
                assert(edge_from(prod.skip(1), opt, rest[i - 1]));
                if exists|k: int| 0 <= k < prod.skip(1).len() && rest[i - 1] == edge_of(#[trigger] prod.skip(1)[k], EdgeKind::Prod) {
                    let k = choose|k: int| 0 <= k < prod.skip(1).len() && rest[i - 1] == edge_of(#[trigger] prod.skip(1)[k], EdgeKind::Prod);
                    assert(prod.skip(1)[k] == prod[k + 1]);
                }
            }
        }
        assert forall|i: int| 0 <= i < prod.len() implies all.contains(edge_of(#[trigger] prod[i], EdgeKind::Prod)) by {
            if i > 0 {
                assert(prod.skip(1)[i - 1] == prod[i]);
                let k = rest.index_of(edge_of(prod[i], EdgeKind::Prod));
                assert(all[k + 1] == rest[k]);
            }
        }
        assert forall|i: int| 0 <= i < opt.len() implies all.contains(edge_of(#[trigger] opt[i], EdgeKind::Optional)) by {
            let k = rest.index_of(edge_of(opt[i], EdgeKind::Optional));
            assert(all[k + 1] == rest[k]);
        }
    } else {
        let rest = merged_edges(prod, opt.skip(1));
        edges_are_the_dependencies(prod, opt.skip(1));
        assert(all[0] == edge_of(opt[0], EdgeKind::Optional));
        assert forall|i: int| 0 <= i < all.len() implies edge_from(prod, opt, #[trigger] all[i]) by {
            if i > 0 {
                assert(all[i] == rest[i - 1]);
                assert(edge_from(prod, opt.skip(1), rest[i - 1]));
                if exists|k: int| 0 <= k < opt.skip(1).len() && rest[i - 1] == edge_of(#[trigger] opt.skip(1)[k], EdgeKind::Optional) {
                    let k = choose|k: int| 0 <= k < opt.skip(1).len() && rest[i - 1] == edge_of(#[trigger] opt.skip(1)[k], EdgeKind::Optional);
                    assert(opt.skip(1)[k] == opt[k + 1]);
                }
            }
        }
        assert forall|i: int| 0 <= i < opt.len() implies all.contains(edge_of(#[trigger] opt[i], EdgeKind::Optional)) by {
            if i > 0 {
                assert(opt.skip(1)[i - 1] == opt[i]);
                let k = rest.index_of(edge_of(opt[i], EdgeKind::Optional));
                assert(all[k + 1] == rest[k]);
            }
        }
        assert forall|i: int| 0 <= i < prod.len() implies all.contains(edge_of(#[trigger] prod[i], EdgeKind::Prod)) by {
            let k = rest.index_of(edge_of(prod[i], EdgeKind::Prod));
            assert(all[k + 1] == rest[k]);
        }
    }
}

/// A node's edges come sorted by link name, whatever the two tables hold.
pub proof fn edges_are_sorted(prod: Table<Seq<char>>, opt: Table<Seq<char>>)
    requires
        keys_increase(prod),
        keys_increase(opt),
    ensures
        forall|i: int, j: int|
            0 <= i < j < merged_edges(prod, opt).len() ==> !text_lt(
                (#[trigger] merged_edges(prod, opt)[j]).link_name,
                (#[trigger] merged_edges(prod, opt)[i]).link_name,
            ),
    decreases prod.len() + opt.len(),
{
    let all = merged_edges(prod, opt);
    if prod.len() == 0 && opt.len() == 0 {
    } else {
        let prod_first = opt.len() == 0 || (prod.len() > 0 && !text_lt(opt[0].0, prod[0].0));
        let ps = if prod_first { prod.skip(1) } else { prod };
        let os = if prod_first { opt } else { opt.skip(1) };
        let rest = merged_edges(ps, os);
        assert forall|i: int, j: int| 0 <= i < j < ps.len() implies text_lt((#[trigger] ps[i]).0, (#[trigger] ps[j]).0) by {
            if prod_first {
                assert(ps[i] == prod[i + 1]);
                assert(ps[j] == prod[j + 1]);
            }
        }
        assert forall|i: int, j: int| 0 <= i < j < os.len() implies text_lt((#[trigger] os[i]).0, (#[trigger] os[j]).0) by {
            if !prod_first {
                assert(os[i] == opt[i + 1]);
                assert(os[j] == opt[j + 1]);
            }
        }
        edges_are_sorted(ps, os);
        edges_are_the_dependencies(ps, os);
        let head = all[0].link_name;
        assert forall|k: int| 0 <= k < prod.len() implies !text_lt((#[trigger] prod[k]).0, head) by {
            if !prod_first {
                text_lt_total(prod[0].0, opt[0].0);
                text_lt_total(prod[0].0, head);
                if prod[0].0 != head && text_lt(prod[0].0, head) {
                    text_lt_transitive(prod[0].0, head, prod[0].0);
                    text_lt_irreflexive(prod[0].0);
                }
            }
            if text_lt(prod[k].0, head) {
                if k > 0 {
                    text_lt_transitive(prod[0].0, prod[k].0, head);
                }
                text_lt_irreflexive(head);
            }
        }
        assert forall|k: int| 0 <= k < opt.len() implies !text_lt((#[trigger] opt[k]).0, head) by {
            if text_lt(opt[k].0, head) {
                if k > 0 {
                    text_lt_transitive(opt[0].0, opt[k].0, head);
                }
                text_lt_irreflexive(head);
            }
        }
        assert forall|i: int, j: int| 0 <= i < j < all.len() implies !text_lt((#[trigger] all[j]).link_name, (#[trigger] all[i]).link_name) by {
            assert(all[j] == rest[j - 1]);
            if i > 0 {
                assert(all[i] == rest[i - 1]);
            } else {
                assert(edge_from(ps, os, rest[j - 1]));
                if exists|k: int| 0 <= k < ps.len() && rest[j - 1] == edge_of(#[trigger] ps[k], EdgeKind::Prod) {
                    let k = choose|k: int| 0 <= k < ps.len() && rest[j - 1] == edge_of(#[trigger] ps[k], EdgeKind::Prod);
                    assert(ps[k] == prod[if prod_first { k + 1 } else { k }]);
                } else {
                    let k = choose|k: int| 0 <= k < os.len() && rest[j - 1] == edge_of(#[trigger] os[k], EdgeKind::Optional);
                    assert(os[k] == opt[if prod_first { k } else { k + 1 }]);
                }
            }
        }
    }
}

proof fn no_dangling<T>(nodes: Table<T>, from: Seq<char>, edges: Seq<EdgeModel>, j: int)
    requires
        0 <= j,
        first_dangling(nodes, from, edges, j) is None,
    ensures
        forall|k: int| j <= k < edges.len() ==> has_key(nodes, (#[trigger] edges[k]).target),
    decreases edges.len() - j,
{
    if j < edges.len() {
        no_dangling(nodes, from, edges, j + 1);
    }
}

proof fn no_edge_error(nodes: Table<NodeModel>, i: int)
    requires
        0 <= i,
        first_edge_error(nodes, i) is None,
    ensures
        forall|k: int, j: int|
            i <= k < nodes.len() && 0 <= j < nodes[k].1.edges.len() ==> has_key(
                nodes,
                (#[trigger] nodes[k].1.edges[j]).target,
            ),
    decreases nodes.len() - i,
{
    if i < nodes.len() {
        no_dangling(nodes, nodes[i].0, nodes[i].1.edges, 0);
        no_edge_error(nodes, i + 1);
    }
}

proof fn no_root_error(nodes: Table<NodeModel>, roots: Seq<RootModel>, j: int)
    requires
        0 <= j,
        first_root_error(nodes, roots, j) is None,
    ensures
        forall|k: int|
            j <= k < roots.len() && (#[trigger] roots[k]).target is Some ==> has_key(
                nodes,
                roots[k].target->Some_0,
            ),
    decreases roots.len() - j,
{
    if j < roots.len() {
        no_root_error(nodes, roots, j + 1);
    }
}

proof fn no_snapshot_error(lock: LockfileModel, i: int)
    requires
        0 <= i,
        first_snapshot_error(lock, i) is None,
    ensures
        forall|k: int| i <= k < lock.snapshots.len() ==> snapshot_error(lock, k) is None,
    decreases lock.snapshots.len() - i,
{
    if i < lock.snapshots.len() {
        no_snapshot_error(lock, i + 1);
    }
}

proof fn owner_found(lock: LockfileModel, n: int, i: int)
    requires
        0 <= i < n,
        node_result(lock, i) is Ok,
    ensures
        owner_of(lock, n, node_result(lock, i)->Ok_0.target_name) is Some,
    decreases n,
{
    if i < n - 1 {
        owner_found(lock, n - 1, i);
    }
}

proof fn no_shared_link(prod: Table<Seq<char>>, opt: Table<Seq<char>>, i: int)
    requires
        0 <= i,
        shared_link(prod, opt, i) is None,
    ensures
        forall|k: int| i <= k < prod.len() ==> !has_key(opt, (#[trigger] prod[k]).0),
    decreases prod.len() - i,
{
    if i < prod.len() {
        no_shared_link(prod, opt, i + 1);
    }
}

proof fn skipping_keeps_order(t: Table<Seq<char>>)
    requires
        keys_increase(t),
        t.len() > 0,
    ensures
        keys_increase(t.skip(1)),
{
    let u = t.skip(1);
    assert forall|i: int, j: int| 0 <= i < j < u.len() implies text_lt(
        (#[trigger] u[i]).0,
        (#[trigger] u[j]).0,
    ) by {
        assert(u[i] == t[i + 1] && u[j] == t[j + 1]);
    }
}

proof fn merged_links_differ(prod: Table<Seq<char>>, opt: Table<Seq<char>>)
    requires
        keys_increase(prod),
        keys_increase(opt),
        forall|k: int| 0 <= k < prod.len() ==> !has_key(opt, (#[trigger] prod[k]).0),
    ensures
        forall|i: int, j: int|
            0 <= i < j < merged_edges(prod, opt).len() ==> (#[trigger] merged_edges(
                prod,
                opt,
            )[i]).link_name != (#[trigger] merged_edges(prod, opt)[j]).link_name,
    decreases prod.len() + opt.len(),
{
    let all = merged_edges(prod, opt);
    if prod.len() == 0 && opt.len() == 0 {
    } else {
        let prod_first = opt.len() == 0 || (prod.len() > 0 && !text_lt(opt[0].0, prod[0].0));
        let ps = if prod_first { prod.skip(1) } else { prod };
        let os = if prod_first { opt } else { opt.skip(1) };
        let rest = merged_edges(ps, os);
        if prod_first {
            skipping_keeps_order(prod);
        } else {
            skipping_keeps_order(opt);
        }
        assert forall|k: int| 0 <= k < ps.len() implies !has_key(os, (#[trigger] ps[k]).0) by {
            let q = if prod_first { k + 1 } else { k };
            assert(ps[k] == prod[q]);
            if has_key(os, ps[k].0) {
                let w = key_index(os, ps[k].0);
                assert(opt[if prod_first { w } else { w + 1 }].0 == prod[q].0);
            }
        }
        merged_links_differ(ps, os);
        edges_are_the_dependencies(ps, os);
        let head = all[0].link_name;
        assert forall|j: int| 0 <= j < rest.len() implies head != (#[trigger] rest[j]).link_name by {
            assert(edge_from(ps, os, rest[j]));
            text_lt_irreflexive(head);
            if exists|k: int| 0 <= k < ps.len() && rest[j] == edge_of(#[trigger] ps[k], EdgeKind::Prod) {
                let k = choose|k: int| 0 <= k < ps.len() && rest[j] == edge_of(#[trigger] ps[k], EdgeKind::Prod);
                let q = if prod_first { k + 1 } else { k };
                assert(ps[k] == prod[q]);
                if prod_first {
                    assert(text_lt(prod[0].0, prod[q].0));
                } else if head == prod[q].0 {
                    assert(opt[0].0 == prod[q].0);
                    assert(has_key(opt, prod[q].0));
                }
            } else {
                let k = choose|k: int| 0 <= k < os.len() && rest[j] == edge_of(#[trigger] os[k], EdgeKind::Optional);
                let q = if prod_first { k } else { k + 1 };
                assert(os[k] == opt[q]);
                if !prod_first {
                    assert(text_lt(opt[0].0, opt[q].0));
                } else if head == opt[q].0 {
                    assert(has_key(opt, prod[0].0));
                }
            }
        }
        assert forall|i: int, j: int| 0 <= i < j < all.len() implies (#[trigger] all[i]).link_name != (
        #[trigger] all[j]).link_name by {
            assert(all[j] == rest[j - 1]);
            if i > 0 {
                assert(all[i] == rest[i - 1]);
            }
        }
    }
}

/// In a graph that was built, no node links two dependencies under one name.
pub proof fn built_links_are_distinct(lock: LockfileModel, n: int, i: int, j: int)
    requires
        graph_of(lock) is Ok,
        0 <= n < lock.snapshots.len(),
        keys_increase(lock.snapshots[n].1.dependencies),
        keys_increase(lock.snapshots[n].1.optional_dependencies),
        0 <= i < j < graph_of(lock)->Ok_0.nodes[n].1.edges.len(),
    ensures
        graph_of(lock)->Ok_0.nodes[n].1.edges[i].link_name
            != graph_of(lock)->Ok_0.nodes[n].1.edges[j].link_name,
{
    let entry = lock.snapshots[n].1;
    no_snapshot_error(lock, 0);
    assert(snapshot_error(lock, n) is None);
    no_shared_link(entry.dependencies, entry.optional_dependencies, 0);
    merged_links_differ(entry.dependencies, entry.optional_dependencies);
}

proof fn first_error_is(lock: LockfileModel, i: int, n: int)
    requires
        0 <= i <= n < lock.snapshots.len(),
        forall|k: int| i <= k < n ==> snapshot_error(lock, k) is None,
        snapshot_error(lock, n) is Some,
    ensures
        first_snapshot_error(lock, i) == snapshot_error(lock, n),
    decreases n - i,
{
    if i < n {
        first_error_is(lock, i + 1, n);
    }
}

/// A link name that a snapshot lists in both of its tables is refused, by name, unless
/// something is wrong with the snapshot itself or with one before it.
pub proof fn a_link_listed_twice_is_refused(lock: LockfileModel, n: int, link: Seq<char>)
    requires
        0 <= n < lock.snapshots.len(),
        forall|k: int| 0 <= k < n ==> snapshot_error(lock, k) is None,
        node_result(lock, n) is Ok,
        owner_of(lock, n, node_result(lock, n)->Ok_0.target_name) is None,
        shared_link(
            lock.snapshots[n].1.dependencies,
            lock.snapshots[n].1.optional_dependencies,
            0,
        ) == Some(link),
    ensures
        graph_of(lock) == Err::<GraphModel, LockErrorModel>(
            LockErrorModel::DuplicateLinkName { snapshot: lock.snapshots[n].0, link_name: link },
        ),
{
    first_error_is(lock, 0, n);
}

/// A graph that was built is closed: every edge, and every root that names a
/// package, points at a node of the graph.
pub proof fn built_graph_is_closed(lock: LockfileModel)
    requires
        graph_of(lock) is Ok,
    ensures
        ({
            let g = graph_of(lock)->Ok_0;
            &&& forall|k: int, j: int|
                0 <= k < g.nodes.len() && 0 <= j < g.nodes[k].1.edges.len() ==> has_key(
                    g.nodes,
                    (#[trigger] g.nodes[k].1.edges[j]).target,
                )
            &&& forall|k: int|
                0 <= k < g.roots.len() && (#[trigger] g.roots[k]).target is Some ==> has_key(
                    g.nodes,
                    g.roots[k].target->Some_0,
                )
        }),
{
    let g = graph_of(lock)->Ok_0;
    no_edge_error(g.nodes, 0);
    no_root_error(g.nodes, g.roots, 0);
}

/// Every key of a graph that was built holds an `@`, as a snapshot key does.
pub proof fn built_keys_hold_an_at(lock: LockfileModel, i: int)
    requires
        graph_of(lock) is Ok,
        0 <= i < graph_of(lock)->Ok_0.nodes.len(),
    ensures
        graph_of(lock)->Ok_0.nodes[i].0.contains('@'),
{
    no_snapshot_error(lock, 0);
    assert(snapshot_error(lock, i) is None);
    let raw = lock.snapshots[i].0;
    parsed_holds_an_at(raw, 0);
}

/// Distinct nodes of a graph that was built have distinct Buck target names, each the
/// one of its key.
pub proof fn target_names_are_unique(lock: LockfileModel)
    requires
        graph_of(lock) is Ok,
    ensures
        forall|i: int|
            0 <= i < graph_of(lock)->Ok_0.nodes.len() ==> (
            #[trigger] graph_of(lock)->Ok_0.nodes[i]).1.target_name == target_text(
                graph_of(lock)->Ok_0.nodes[i].0,
            ),
        forall|i: int, j: int|
            0 <= i < j < graph_of(lock)->Ok_0.nodes.len()
                ==> (#[trigger] graph_of(lock)->Ok_0.nodes[i]).1.target_name != (
            #[trigger] graph_of(lock)->Ok_0.nodes[j]).1.target_name,
{
    let nodes = graph_of(lock)->Ok_0.nodes;
    no_snapshot_error(lock, 0);
    assert forall|i: int, j: int| 0 <= i < j < nodes.len() implies (#[trigger] nodes[i]).1.target_name != (#[trigger] nodes[j]).1.target_name by {
        assert(snapshot_error(lock, i) is None);
        assert(snapshot_error(lock, j) is None);
        owner_found(lock, j, i);
    }
    assert forall|i: int| 0 <= i < nodes.len() implies (#[trigger] nodes[i]).1.target_name
        == target_text(nodes[i].0) by {
        assert(snapshot_error(lock, i) is None);
        canonical_of_parsed(lock.snapshots[i].0, 0);
    }
}

/// Every package that a chain of dependencies leads back to is reported in a cycle.
pub proof fn packages_on_a_cycle_are_reported(nodes: Table<NodeModel>, i: int)
    requires
        0 <= i < nodes.len(),
        leads(depends(nodes), i, i),
    ensures
        exists|g: int|
            0 <= g < cycles_of(nodes).len() && (#[trigger] cycles_of(nodes)[g]).contains(nodes[i].0),
{
    let n = nodes.len() as int;
    let all = groups_of(depends(nodes), n, n);
    every_cycle_is_reported(depends(nodes), n, i);
    let g = choose|g: int| 0 <= g < all.len() && (#[trigger] all[g]).contains(i);
    let p = all[g].index_of(i);
    assert(cycles_of(nodes)[g][p] == nodes[i].0);
    assert(cycles_of(nodes)[g].contains(nodes[i].0));
}

/// What is reported as a cycle is one: from each of its packages a chain of
/// dependencies leads to each other.
pub proof fn reported_cycles_are_cycles(nodes: Table<NodeModel>, g: int, p: int, q: int)
    requires
        0 <= g < cycles_of(nodes).len(),
        0 <= p < cycles_of(nodes)[g].len(),
        0 <= q < cycles_of(nodes)[g].len(),
    ensures
        exists|i: int, j: int|
            0 <= i < nodes.len() && 0 <= j < nodes.len() && nodes[i].0 == cycles_of(nodes)[g][p]
                && nodes[j].0 == cycles_of(nodes)[g][q] && #[trigger] leads(depends(nodes), i, j),
{
    let n = nodes.len() as int;
    let group = groups_of(depends(nodes), n, n)[g];
    let i = group[p];
    let j = group[q];
    assert(group.contains(i) && group.contains(j));
    members_lead_to_each_other(depends(nodes), n, g, i, j);
    members_are_places(depends(nodes), n, g, i);
    members_are_places(depends(nodes), n, g, j);
    assert(cycles_of(nodes)[g][p] == nodes[i].0);
    assert(cycles_of(nodes)[g][q] == nodes[j].0);
}

/// A dependency's value is a whole snapshot key: an `@` stands behind its first character
/// and before any paren.
pub open spec fn is_whole_key(value: Seq<char>) -> bool {
    exists|p: int|
        0 < p < value.len() && #[trigger] value[p] == '@' && !value.take(p).contains('(')
}

/// A dependency resolves to its value where that is a whole key, and to its link name,
/// `@` and its value where it is not.
pub proof fn a_dependency_resolves_to_a_key(link: Seq<char>, value: Seq<char>)
    ensures
        is_whole_key(value) ==> resolve_text(link, value) == value,
        !is_whole_key(value) ==> resolve_text(link, value) == link + seq!['@'] + value,
{
    let cut = next_open(value, 0);
    next_open_skips(value, 0);
    last_at_splits(value, cut);
    if let Some(at) = last_at(value, cut) {
        let head = value.take(at);
        if head.contains('(') {
            let q = head.index_of('(');
            assert(value[q] == '(');
        }
        assert(value[at] == '@');
    } else if is_whole_key(value) {
        let p = choose|p: int|
            0 < p < value.len() && #[trigger] value[p] == '@' && !value.take(p).contains('(');
        if p >= cut {
            assert(value[cut] == '(');
            assert(cut != p);
            assert(value.take(p)[cut] == '(');
        }
    }
}

/// One of an importer's groups.
pub open spec fn group_under(importer: ImporterModel, kind: RootKind) -> Table<ImporterDepModel> {
    match kind {
        RootKind::Prod => importer.dependencies,
        RootKind::Dev => importer.dev_dependencies,
        RootKind::Optional => importer.optional_dependencies,
    }
}

/// The root that an importer's entry becomes. Where its specifier starts with
/// `workspace:`, `link:` or `file:`, or its version with `link:` or `file:`, it leads to
/// another importer and has no target. Any other entry has the package it resolves to.
pub open spec fn becomes_root(
    importer: Seq<char>,
    link: Seq<char>,
    dep: ImporterDepModel,
    kind: RootKind,
    root: RootModel,
) -> bool {
    &&& root.importer == importer
    &&& root.link_name == link
    &&& root.specifier == dep.specifier
    &&& root.kind == kind
    &&& "workspace:"@.is_prefix_of(dep.specifier) ==> root.target is None
    &&& "link:"@.is_prefix_of(dep.specifier) ==> root.target is None
    &&& "file:"@.is_prefix_of(dep.specifier) ==> root.target is None
    &&& "link:"@.is_prefix_of(dep.version) ==> root.target is None
    &&& "file:"@.is_prefix_of(dep.version) ==> root.target is None
    &&& root.target is None ==> {
        ||| "workspace:"@.is_prefix_of(dep.specifier)
        ||| "link:"@.is_prefix_of(dep.specifier)
        ||| "file:"@.is_prefix_of(dep.specifier)
        ||| "link:"@.is_prefix_of(dep.version)
        ||| "file:"@.is_prefix_of(dep.version)
    }
    &&& root.target is Some ==> root.target->Some_0 == (if is_whole_key(dep.version) {
        dep.version
    } else {
        link + seq!['@'] + dep.version
    })
}

proof fn root_becomes(importer: Seq<char>, entry: (Seq<char>, ImporterDepModel), kind: RootKind)
    ensures
        becomes_root(importer, entry.0, entry.1, kind, root_of(importer, entry, kind)),
{
    a_dependency_resolves_to_a_key(entry.0, entry.1.version);
}

/// Where among an importer's roots an entry of one of its groups stands.
spec fn place_in_roots(importer: ImporterModel, kind: RootKind, j: int) -> int {
    match kind {
        RootKind::Prod => j,
        RootKind::Dev => importer.dependencies.len() + j,
        RootKind::Optional => importer.dependencies.len() + importer.dev_dependencies.len() + j,
    }
}

proof fn entry_is_among_roots(
    importers: Table<ImporterModel>,
    n: int,
    i: int,
    kind: RootKind,
    j: int,
)
    requires
        0 <= i < n <= importers.len(),
        0 <= j < group_under(importers[i].1, kind).len(),
    ensures
        roots_of(importers, n).contains(
            root_of(importers[i].0, group_under(importers[i].1, kind)[j], kind),
        ),
    decreases n,
{
    let all = roots_of(importers, n);
    let before = roots_of(importers, n - 1);
    let root = root_of(importers[i].0, group_under(importers[i].1, kind)[j], kind);
    if i == n - 1 {
        let p = place_in_roots(importers[i].1, kind, j);
        assert(importer_roots(importers[i])[p] == root);
        assert(all[before.len() + p] == root);
    } else {
        entry_is_among_roots(importers, n - 1, i, kind, j);
        assert(all[before.index_of(root)] == root);
    }
}

/// An entry of a group of one of the first `n` importers becomes this root.
pub open spec fn some_entry_becomes(importers: Table<ImporterModel>, n: int, root: RootModel) -> bool {
    exists|i: int, kind: RootKind, j: int|
        0 <= i < n && 0 <= j < group_under(importers[i].1, kind).len() && becomes_root(
            importers[i].0,
            (#[trigger] group_under(importers[i].1, kind)[j]).0,
            group_under(importers[i].1, kind)[j].1,
            kind,
            root,
        )
}

proof fn roots_are_entries(importers: Table<ImporterModel>, n: int, r: int)
    requires
        0 <= n <= importers.len(),
        0 <= r < roots_of(importers, n).len(),
    ensures
        some_entry_becomes(importers, n, roots_of(importers, n)[r]),
        exists|i: int, kind: RootKind, j: int|
            0 <= i < n && 0 <= j < group_under(importers[i].1, kind).len()
                && roots_of(importers, n)[r] == root_of(
                importers[i].0,
                #[trigger] group_under(importers[i].1, kind)[j],
                kind,
            ),
    decreases n,
{
    if n > 0 {
        let before = roots_of(importers, n - 1);
        let all = roots_of(importers, n);
        let root = all[r];
        if r < before.len() {
            roots_are_entries(importers, n - 1, r);
            assert(before[r] == root);
            let (i, kind, j) = choose|i: int, kind: RootKind, j: int|
                0 <= i < n - 1 && 0 <= j < group_under(importers[i].1, kind).len() && before[r]
                    == root_of(
                    importers[i].0,
                    #[trigger] group_under(importers[i].1, kind)[j],
                    kind,
                );
            root_becomes(importers[i].0, group_under(importers[i].1, kind)[j], kind);
            assert(root == root_of(importers[i].0, group_under(importers[i].1, kind)[j], kind));
        } else {
            let imp = importers[n - 1].1;
            let p = r - before.len();
            let a = imp.dependencies.len() as int;
            let b = a + imp.dev_dependencies.len();
            let (kind, j) = if p < a {
                (RootKind::Prod, p)
            } else if p < b {
                (RootKind::Dev, p - a)
            } else {
                (RootKind::Optional, p - b)
            };
            assert(root == importer_roots(importers[n - 1])[p]);
            let entry = group_under(imp, kind)[j];
            assert(root == root_of(importers[n - 1].0, entry, kind));
            root_becomes(importers[n - 1].0, entry, kind);
            assert(group_under(importers[n - 1].1, kind)[j] == entry);
        }
    }
}

/// In a graph that was built every entry of every group of every importer is a root, and
/// every root is such an entry.
pub proof fn roots_are_what_importers_ask_for(lock: LockfileModel)
    requires
        graph_of(lock) is Ok,
    ensures
        forall|i: int, kind: RootKind, j: int|
            0 <= i < lock.importers.len() && 0 <= j < group_under(lock.importers[i].1, kind).len()
                ==> exists|r: int|
                0 <= r < graph_of(lock)->Ok_0.roots.len() && becomes_root(
                    lock.importers[i].0,
                    (#[trigger] group_under(lock.importers[i].1, kind)[j]).0,
                    group_under(lock.importers[i].1, kind)[j].1,
                    kind,
                    #[trigger] graph_of(lock)->Ok_0.roots[r],
                ),
        forall|r: int|
            0 <= r < graph_of(lock)->Ok_0.roots.len() ==> some_entry_becomes(
                lock.importers,
                lock.importers.len() as int,
                #[trigger] graph_of(lock)->Ok_0.roots[r],
            ),
{
    let importers = lock.importers;
    let n = importers.len() as int;
    let roots = graph_of(lock)->Ok_0.roots;
    assert forall|i: int, kind: RootKind, j: int|
        0 <= i < n && 0 <= j < group_under(importers[i].1, kind).len() implies exists|r: int|
        0 <= r < roots.len() && becomes_root(
            importers[i].0,
            (#[trigger] group_under(importers[i].1, kind)[j]).0,
            group_under(importers[i].1, kind)[j].1,
            kind,
            #[trigger] roots[r],
        ) by {
        let entry = group_under(importers[i].1, kind)[j];
        entry_is_among_roots(importers, n, i, kind, j);
        root_becomes(importers[i].0, entry, kind);
        let r = roots.index_of(root_of(importers[i].0, entry, kind));
        assert(becomes_root(importers[i].0, entry.0, entry.1, kind, roots[r]));
    }
    assert forall|r: int| 0 <= r < roots.len() implies some_entry_becomes(
        importers,
        n,
        #[trigger] roots[r],
    ) by {
        roots_are_entries(importers, n, r);
    }
}

/// A lockfile whose importers ask for nothing.
pub open spec fn without_importers(lock: LockfileModel) -> LockfileModel {
    LockfileModel { importers: Seq::empty(), ..lock }
}

proof fn importers_do_not_own(lock: LockfileModel, n: int, target: Seq<char>)
    ensures
        owner_of(lock, n, target) == owner_of(without_importers(lock), n, target),
    decreases n,
{
    if n > 0 {
        importers_do_not_own(lock, n - 1, target);
        assert(node_result(lock, n - 1) == node_result(without_importers(lock), n - 1));
    }
}

proof fn importers_do_not_fail_snapshots(lock: LockfileModel, i: int)
    ensures
        first_snapshot_error(lock, i) == first_snapshot_error(without_importers(lock), i),
    decreases lock.snapshots.len() - i,
{
    if 0 <= i < lock.snapshots.len() {
        let bare = without_importers(lock);
        assert(node_result(lock, i) == node_result(bare, i));
        if let Ok(node) = node_result(lock, i) {
            importers_do_not_own(lock, i, node.target_name);
        }
        importers_do_not_fail_snapshots(lock, i + 1);
    }
}

proof fn every_target_is_there(nodes: Table<NodeModel>, roots: Seq<RootModel>, j: int)
    requires
        0 <= j,
        forall|k: int|
            j <= k < roots.len() && (#[trigger] roots[k]).target is Some ==> has_key(
                nodes,
                roots[k].target->Some_0,
            ),
    ensures
        first_root_error(nodes, roots, j) is None,
    decreases roots.len() - j,
{
    if j < roots.len() {
        every_target_is_there(nodes, roots, j + 1);
    }
}

/// This entry of an importer asks for a package that the lockfile does not have: it leads
/// to no other importer, and what it resolves to is no snapshot.
pub open spec fn asks_in_vain(lock: LockfileModel, link: Seq<char>, dep: ImporterDepModel) -> bool {
    &&& !"workspace:"@.is_prefix_of(dep.specifier)
    &&& !"link:"@.is_prefix_of(dep.specifier)
    &&& !"file:"@.is_prefix_of(dep.specifier)
    &&& !"link:"@.is_prefix_of(dep.version)
    &&& !"file:"@.is_prefix_of(dep.version)
    &&& !has_key(
        lock.snapshots,
        if is_whole_key(dep.version) {
            dep.version
        } else {
            link + seq!['@'] + dep.version
        },
    )
}

/// A lockfile is built exactly where it is built without its importers and none of their
/// entries asks for a package in vain. An entry that leads to another importer never
/// stands in the way.
pub proof fn only_missing_packages_fail_importers(lock: LockfileModel)
    ensures
        graph_of(lock) is Ok <==> graph_of(without_importers(lock)) is Ok && forall|
            i: int,
            kind: RootKind,
            j: int,
        |
            0 <= i < lock.importers.len() && 0 <= j < group_under(lock.importers[i].1, kind).len()
                ==> !asks_in_vain(
                lock,
                (#[trigger] group_under(lock.importers[i].1, kind)[j]).0,
                group_under(lock.importers[i].1, kind)[j].1,
            ),
        graph_of(lock) is Ok ==> graph_of(lock)->Ok_0.nodes == graph_of(
            without_importers(lock),
        )->Ok_0.nodes,
        graph_of(without_importers(lock)) is Err ==> graph_of(lock) is Err && graph_of(lock)->Err_0
            == graph_of(without_importers(lock))->Err_0,
{
    let bare = without_importers(lock);
    let importers = lock.importers;
    let n = importers.len() as int;
    let nodes = nodes_of(lock, lock.snapshots.len() as int);
    let roots = roots_of(importers, n);
    importers_do_not_fail_snapshots(lock, 0);
    assert(nodes_of(bare, bare.snapshots.len() as int) =~= nodes) by {
        assert forall|i: int| 0 <= i < nodes.len() implies node_result(lock, i) == node_result(
            bare,
            i,
        ) by {}
    }
    assert(roots_of(bare.importers, 0) =~= Seq::<RootModel>::empty());
    assert forall|k: Seq<char>| has_key(nodes, k) <==> has_key(lock.snapshots, k) by {
        if has_key(nodes, k) {
            let i = key_index(nodes, k);
            assert(lock.snapshots[i].0 == k);
        }
        if has_key(lock.snapshots, k) {
            let i = key_index(lock.snapshots, k);
            assert(nodes[i].0 == k);
        }
    }
    if graph_of(lock) is Ok {
        no_root_error(nodes, roots, 0);
        assert forall|i: int, kind: RootKind, j: int|
            0 <= i < n && 0 <= j < group_under(importers[i].1, kind).len() implies !asks_in_vain(
            lock,
            (#[trigger] group_under(importers[i].1, kind)[j]).0,
            group_under(importers[i].1, kind)[j].1,
        ) by {
            let entry = group_under(importers[i].1, kind)[j];
            entry_is_among_roots(importers, n, i, kind, j);
            root_becomes(importers[i].0, entry, kind);
            let r = roots.index_of(root_of(importers[i].0, entry, kind));
            assert(roots[r] == root_of(importers[i].0, entry, kind));
        }
    }
    if graph_of(bare) is Ok && forall|i: int, kind: RootKind, j: int|
        0 <= i < n && 0 <= j < group_under(importers[i].1, kind).len() ==> !asks_in_vain(
            lock,
            (#[trigger] group_under(importers[i].1, kind)[j]).0,
            group_under(importers[i].1, kind)[j].1,
        ) {
        assert forall|k: int|
            0 <= k < roots.len() && (#[trigger] roots[k]).target is Some implies has_key(
            nodes,
            roots[k].target->Some_0,
        ) by {
            roots_are_entries(importers, n, k);
            let (i, kind, j) = choose|i: int, kind: RootKind, j: int|
                0 <= i < n && 0 <= j < group_under(importers[i].1, kind).len() && roots[k]
                    == root_of(
                    importers[i].0,
                    #[trigger] group_under(importers[i].1, kind)[j],
                    kind,
                );
            let entry = group_under(importers[i].1, kind)[j];
            root_becomes(importers[i].0, entry, kind);
            assert(!asks_in_vain(lock, entry.0, entry.1));
        }
        every_target_is_there(nodes, roots, 0);
    }
}

/// Texts in parens, one behind the other.
pub open spec fn in_parens(texts: Seq<Seq<char>>) -> Seq<char>
    decreases texts.len(),
{
    if texts.len() == 0 {
        Seq::empty()
    } else {
        in_parens(texts.drop_last()) + seq!['('] + texts.last() + seq![')']
    }
}

proof fn groups_are_in_parens(peers: Seq<KeyModel>)
    ensures
        groups_text(peers) == in_parens(peers.map_values(|p: KeyModel| canonical_text(p))),
    decreases peers.len(),
{
    if peers.len() > 0 {
        let texts = peers.map_values(|p: KeyModel| canonical_text(p));
        groups_are_in_parens(peers.drop_last());
        assert(texts.drop_last() =~= peers.drop_last().map_values(
            |p: KeyModel| canonical_text(p),
        ));
    }
}

/// A graph that was built has one node for each snapshot, under the snapshot's key. The key
/// is the node's name, `@`, its version and its peers in parens, the version holding
/// neither `@` nor parens; the metadata is what the lockfile has under name, `@` and
/// version.
pub proof fn nodes_are_the_snapshots(lock: LockfileModel, i: int)
    requires
        graph_of(lock) is Ok,
        0 <= i < lock.snapshots.len(),
    ensures
        graph_of(lock)->Ok_0.nodes.len() == lock.snapshots.len(),
        ({
            let (key, node) = graph_of(lock)->Ok_0.nodes[i];
            let (raw, entry) = lock.snapshots[i];
            &&& key == raw
            &&& raw == node.name + seq!['@'] + node.version + in_parens(node.peers)
            &&& node.name.len() > 0
            &&& !node.name.contains('(') && !node.name.contains(')')
            &&& node.version.len() > 0
            &&& !node.version.contains('@')
            &&& !node.version.contains('(') && !node.version.contains(')')
            &&& lookup(lock.packages, node.name + seq!['@'] + node.version) == Some(node.meta)
            &&& node.optional == entry.optional
        }),
{
    let raw = lock.snapshots[i].0;
    no_snapshot_error(lock, 0);
    assert(snapshot_error(lock, i) is None);
    let k = parse_key(raw, 0)->Ok_0;
    canonical_of_parsed(raw, 0);
    parsed_is_spellable(raw, 0);
    groups_are_in_parens(k.peers);
}

/// A node has one edge for each dependency of its snapshot, required or optional, that
/// carries the dependency's link name and leads to what it resolves to, and no other edge.
pub proof fn every_dependency_is_an_edge(lock: LockfileModel, i: int, j: int)
    requires
        graph_of(lock) is Ok,
        0 <= i < lock.snapshots.len(),
    ensures
        ({
            let edges = graph_of(lock)->Ok_0.nodes[i].1.edges;
            let entry = lock.snapshots[i].1;
            let required = entry.dependencies;
            let optional = entry.optional_dependencies;
            &&& edges.len() == required.len() + optional.len()
            &&& 0 <= j < required.len() ==> edges.contains(
                EdgeModel {
                    link_name: required[j].0,
                    target: if is_whole_key(required[j].1) {
                        required[j].1
                    } else {
                        required[j].0 + seq!['@'] + required[j].1
                    },
                    kind: EdgeKind::Prod,
                },
            )
            &&& 0 <= j < optional.len() ==> edges.contains(
                EdgeModel {
                    link_name: optional[j].0,
                    target: if is_whole_key(optional[j].1) {
                        optional[j].1
                    } else {
                        optional[j].0 + seq!['@'] + optional[j].1
                    },
                    kind: EdgeKind::Optional,
                },
            )
        }),
{
    let entry = lock.snapshots[i].1;
    let required = entry.dependencies;
    let optional = entry.optional_dependencies;
    no_snapshot_error(lock, 0);
    assert(snapshot_error(lock, i) is None);
    edges_are_the_dependencies(required, optional);
    if 0 <= j < required.len() {
        a_dependency_resolves_to_a_key(required[j].0, required[j].1);
        assert(merged_edges(required, optional).contains(edge_of(required[j], EdgeKind::Prod)));
    }
    if 0 <= j < optional.len() {
        a_dependency_resolves_to_a_key(optional[j].0, optional[j].1);
        assert(merged_edges(required, optional).contains(edge_of(optional[j], EdgeKind::Optional)));
    }
}

/// What a refusal of a lockfile says is wrong with it is so.
pub open spec fn is_at_fault(lock: LockfileModel, e: LockErrorModel) -> bool {
    match e {
        LockErrorModel::KeyParse { key, .. } => has_key(lock.snapshots, key) && parse_key(
            key,
            0,
        ) is Err,
        LockErrorModel::MissingPackageMeta { snapshot, base } => {
            &&& has_key(lock.snapshots, snapshot)
            &&& base.is_prefix_of(snapshot)
            &&& base.contains('@')
            &&& !has_key(lock.packages, base)
        },
        LockErrorModel::TargetNameCollision { a, b, target } => exists|i: int, j: int|
            {
                &&& 0 <= i < j < lock.snapshots.len()
                &&& (#[trigger] lock.snapshots[i]).0 == a
                &&& (#[trigger] lock.snapshots[j]).0 == b
                &&& target_text(a) == target
                &&& target_text(b) == target
            },
        LockErrorModel::DuplicateLinkName { snapshot, link_name } => exists|i: int|
            {
                &&& 0 <= i < lock.snapshots.len()
                &&& (#[trigger] lock.snapshots[i]).0 == snapshot
                &&& has_key(lock.snapshots[i].1.dependencies, link_name)
                &&& has_key(lock.snapshots[i].1.optional_dependencies, link_name)
            },
        LockErrorModel::UnresolvedEdge { from, link_name, resolved } => {
            &&& !has_key(lock.snapshots, resolved)
            &&& has_key(lock.snapshots, from) || "importer "@.is_prefix_of(from)
            &&& resolved.contains('@')
        },
        _ => false,
    }
}

proof fn an_owner_comes_before(lock: LockfileModel, n: int, target: Seq<char>)
    requires
        0 <= n <= lock.snapshots.len(),
        owner_of(lock, n, target) is Some,
    ensures
        exists|i: int|
            {
                &&& 0 <= i < n
                &&& (#[trigger] lock.snapshots[i]).0 == owner_of(lock, n, target)->Some_0
                &&& target_text(lock.snapshots[i].0) == target
            },
    decreases n,
{
    if n > 0 {
        if owner_of(lock, n - 1, target) is Some {
            an_owner_comes_before(lock, n - 1, target);
        } else {
            canonical_of_parsed(lock.snapshots[n - 1].0, 0);
            assert(lock.snapshots[n - 1].0 == owner_of(lock, n, target)->Some_0);
        }
    }
}

proof fn a_shared_link_is_in_both(prod: Table<Seq<char>>, opt: Table<Seq<char>>, i: int)
    requires
        0 <= i,
        shared_link(prod, opt, i) is Some,
    ensures
        has_key(prod, shared_link(prod, opt, i)->Some_0),
        has_key(opt, shared_link(prod, opt, i)->Some_0),
    decreases prod.len() - i,
{
    if i < prod.len() && !has_key(opt, prod[i].0) {
        a_shared_link_is_in_both(prod, opt, i + 1);
    } else {
        assert(prod[i].0 == shared_link(prod, opt, i)->Some_0);
    }
}

proof fn a_snapshot_error_is_a_fault(lock: LockfileModel, i: int)
    requires
        0 <= i < lock.snapshots.len(),
        snapshot_error(lock, i) is Some,
    ensures
        is_at_fault(lock, snapshot_error(lock, i)->Some_0),
{
    let raw = lock.snapshots[i].0;
    assert(has_key(lock.snapshots, raw));
    if let Ok(k) = parse_key(raw, 0) {
        let base = base_text(k);
        canonical_of_parsed(raw, 0);
        assert(raw =~= base + groups_text(k.peers));
        assert(raw.take(base.len() as int) =~= base);
        assert(base[k.name.len() as int] == '@');
        if let Ok(node) = node_result(lock, i) {
            if owner_of(lock, i, node.target_name) is Some {
                an_owner_comes_before(lock, i, node.target_name);
                let j = choose|j: int|
                    {
                        &&& 0 <= j < i
                        &&& (#[trigger] lock.snapshots[j]).0 == owner_of(
                            lock,
                            i,
                            node.target_name,
                        )->Some_0
                        &&& target_text(lock.snapshots[j].0) == node.target_name
                    };
                assert(lock.snapshots[i].0 == raw);
            } else {
                let entry = lock.snapshots[i].1;
                a_shared_link_is_in_both(entry.dependencies, entry.optional_dependencies, 0);
            }
        }
    }
}

proof fn a_first_snapshot_error_is_a_fault(lock: LockfileModel, i: int)
    requires
        0 <= i,
        first_snapshot_error(lock, i) is Some,
    ensures
        is_at_fault(lock, first_snapshot_error(lock, i)->Some_0),
    decreases lock.snapshots.len() - i,
{
    if i < lock.snapshots.len() {
        if snapshot_error(lock, i) is Some {
            a_snapshot_error_is_a_fault(lock, i);
        } else {
            a_first_snapshot_error_is_a_fault(lock, i + 1);
        }
    }
}

proof fn a_dangling_edge_is_one(
    nodes: Table<NodeModel>,
    from: Seq<char>,
    edges: Seq<EdgeModel>,
    j: int,
)
    requires
        0 <= j,
        first_dangling(nodes, from, edges, j) is Some,
    ensures
        exists|k: int|
            {
                &&& j <= k < edges.len()
                &&& !has_key(nodes, (#[trigger] edges[k]).target)
                &&& first_dangling(nodes, from, edges, j) == Some(
                    LockErrorModel::UnresolvedEdge {
                        from,
                        link_name: edges[k].link_name,
                        resolved: edges[k].target,
                    },
                )
            },
    decreases edges.len() - j,
{
    if j < edges.len() && has_key(nodes, edges[j].target) {
        a_dangling_edge_is_one(nodes, from, edges, j + 1);
    }
}

proof fn a_first_edge_error_is_one(nodes: Table<NodeModel>, i: int)
    requires
        0 <= i,
        first_edge_error(nodes, i) is Some,
    ensures
        exists|a: int, k: int|
            {
                &&& i <= a < nodes.len()
                &&& 0 <= k < nodes[a].1.edges.len()
                &&& !has_key(nodes, (#[trigger] nodes[a].1.edges[k]).target)
                &&& first_edge_error(nodes, i) == Some(
                    LockErrorModel::UnresolvedEdge {
                        from: nodes[a].0,
                        link_name: nodes[a].1.edges[k].link_name,
                        resolved: nodes[a].1.edges[k].target,
                    },
                )
            },
    decreases nodes.len() - i,
{
    if i < nodes.len() {
        if first_dangling(nodes, nodes[i].0, nodes[i].1.edges, 0) is Some {
            a_dangling_edge_is_one(nodes, nodes[i].0, nodes[i].1.edges, 0);
        } else {
            a_first_edge_error_is_one(nodes, i + 1);
        }
    }
}

proof fn a_first_root_error_is_one(nodes: Table<NodeModel>, roots: Seq<RootModel>, j: int)
    requires
        0 <= j,
        first_root_error(nodes, roots, j) is Some,
    ensures
        exists|k: int|
            {
                &&& j <= k < roots.len()
                &&& (#[trigger] roots[k]).target is Some
                &&& !has_key(nodes, roots[k].target->Some_0)
                &&& first_root_error(nodes, roots, j) == Some(
                    LockErrorModel::UnresolvedEdge {
                        from: "importer "@ + roots[k].importer,
                        link_name: roots[k].link_name,
                        resolved: roots[k].target->Some_0,
                    },
                )
            },
    decreases roots.len() - j,
{
    if j < roots.len() && !(roots[j].target is Some && !has_key(nodes, roots[j].target->Some_0)) {
        a_first_root_error_is_one(nodes, roots, j + 1);
    }
}

proof fn a_resolved_key_holds_an_at(link: Seq<char>, value: Seq<char>)
    ensures
        resolve_text(link, value).contains('@'),
{
    a_dependency_resolves_to_a_key(link, value);
    if is_whole_key(value) {
        let p = choose|p: int|
            0 < p < value.len() && #[trigger] value[p] == '@' && !value.take(p).contains('(');
        assert(value[p] == '@');
    } else {
        assert((link + seq!['@'] + value)[link.len() as int] == '@');
    }
}

/// No lockfile is refused without cause: what its refusal says is wrong with it is so.
pub proof fn a_refused_lockfile_is_at_fault(lock: LockfileModel)
    requires
        graph_of(lock) is Err,
    ensures
        is_at_fault(lock, graph_of(lock)->Err_0),
{
    let n = lock.snapshots.len() as int;
    let nodes = nodes_of(lock, n);
    let roots = roots_of(lock.importers, lock.importers.len() as int);
    assert forall|k: Seq<char>| has_key(nodes, k) <==> has_key(lock.snapshots, k) by {
        if has_key(nodes, k) {
            assert(lock.snapshots[key_index(nodes, k)].0 == k);
        }
        if has_key(lock.snapshots, k) {
            assert(nodes[key_index(lock.snapshots, k)].0 == k);
        }
    }
    if first_snapshot_error(lock, 0) is Some {
        a_first_snapshot_error_is_a_fault(lock, 0);
    } else if first_edge_error(nodes, 0) is Some {
        a_first_edge_error_is_one(nodes, 0);
        let (a, k) = choose|a: int, k: int|
            {
                &&& 0 <= a < nodes.len()
                &&& 0 <= k < nodes[a].1.edges.len()
                &&& !has_key(nodes, (#[trigger] nodes[a].1.edges[k]).target)
                &&& first_edge_error(nodes, 0) == Some(
                    LockErrorModel::UnresolvedEdge {
                        from: nodes[a].0,
                        link_name: nodes[a].1.edges[k].link_name,
                        resolved: nodes[a].1.edges[k].target,
                    },
                )
            };
        no_snapshot_error(lock, 0);
        assert(snapshot_error(lock, a) is None);
        let entry = lock.snapshots[a].1;
        edges_are_the_dependencies(entry.dependencies, entry.optional_dependencies);
        let e = nodes[a].1.edges[k];
        assert(edge_from(entry.dependencies, entry.optional_dependencies, e));
        if exists|i: int|
            0 <= i < entry.dependencies.len() && e == edge_of(
                #[trigger] entry.dependencies[i],
                EdgeKind::Prod,
            ) {
            let i = choose|i: int|
                0 <= i < entry.dependencies.len() && e == edge_of(
                    #[trigger] entry.dependencies[i],
                    EdgeKind::Prod,
                );
            a_resolved_key_holds_an_at(entry.dependencies[i].0, entry.dependencies[i].1);
        } else {
            let i = choose|i: int|
                0 <= i < entry.optional_dependencies.len() && e == edge_of(
                    #[trigger] entry.optional_dependencies[i],
                    EdgeKind::Optional,
                );
            a_resolved_key_holds_an_at(
                entry.optional_dependencies[i].0,
                entry.optional_dependencies[i].1,
            );
        }
        assert(has_key(nodes, nodes[a].0));
    } else {
        a_first_root_error_is_one(nodes, roots, 0);
        let r = choose|r: int|
            {
                &&& 0 <= r < roots.len()
                &&& (#[trigger] roots[r]).target is Some
                &&& !has_key(nodes, roots[r].target->Some_0)
                &&& first_root_error(nodes, roots, 0) == Some(
                    LockErrorModel::UnresolvedEdge {
                        from: "importer "@ + roots[r].importer,
                        link_name: roots[r].link_name,
                        resolved: roots[r].target->Some_0,
                    },
                )
            };
        let m = lock.importers.len() as int;
        roots_are_entries(lock.importers, m, r);
        let (i, kind, j) = choose|i: int, kind: RootKind, j: int|
            0 <= i < m && 0 <= j < group_under(lock.importers[i].1, kind).len() && roots[r]
                == root_of(
                lock.importers[i].0,
                #[trigger] group_under(lock.importers[i].1, kind)[j],
                kind,
            );
        let entry = group_under(lock.importers[i].1, kind)[j];
        a_resolved_key_holds_an_at(entry.0, entry.1.version);
        let from = "importer "@ + roots[r].importer;
        assert(from.take("importer "@.len() as int) =~= "importer "@);
    }
}

/// How many entries the first `n` importers have, over all their groups.
pub open spec fn entries_before(importers: Table<ImporterModel>, n: int) -> nat
    decreases n,
{
    if n <= 0 {
        0
    } else {
        entries_before(importers, n - 1) + importers[n - 1].1.dependencies.len() + importers[n
            - 1].1.dev_dependencies.len() + importers[n - 1].1.optional_dependencies.len()
    }
}

proof fn roots_are_laid_out(importers: Table<ImporterModel>, n: int, i: int, kind: RootKind, j: int)
    requires
        0 <= i < n <= importers.len(),
        0 <= j < group_under(importers[i].1, kind).len(),
    ensures
        roots_of(importers, n).len() == entries_before(importers, n),
        roots_of(importers, n)[entries_before(importers, i) + place_in_roots(
            importers[i].1,
            kind,
            j,
        )] == root_of(importers[i].0, group_under(importers[i].1, kind)[j], kind),
        0 <= place_in_roots(importers[i].1, kind, j),
        entries_before(importers, i) + place_in_roots(importers[i].1, kind, j) < entries_before(
            importers,
            n,
        ),
    decreases n,
{
    roots_are_counted(importers, n - 1);
    roots_are_counted(importers, n);
    let all = roots_of(importers, n);
    let before = roots_of(importers, n - 1);
    let p = place_in_roots(importers[i].1, kind, j);
    if i == n - 1 {
        assert(importer_roots(importers[i])[p] == root_of(
            importers[i].0,
            group_under(importers[i].1, kind)[j],
            kind,
        ));
        assert(all[before.len() + p] == importer_roots(importers[i])[p]);
    } else {
        roots_are_laid_out(importers, n - 1, i, kind, j);
        assert(all[entries_before(importers, i) + p] == before[entries_before(importers, i) + p]);
    }
}

proof fn roots_are_counted(importers: Table<ImporterModel>, n: int)
    requires
        0 <= n <= importers.len(),
    ensures
        roots_of(importers, n).len() == entries_before(importers, n),
    decreases n,
{
    if n > 0 {
        roots_are_counted(importers, n - 1);
    }
}

/// The roots stand in the order of the importers, and of one importer the required ones
/// come first, then those for development, then the optional ones, each in the order of
/// their group.
pub proof fn roots_stand_in_order(lock: LockfileModel, i: int, kind: RootKind, j: int)
    requires
        graph_of(lock) is Ok,
        0 <= i < lock.importers.len(),
        0 <= j < group_under(lock.importers[i].1, kind).len(),
    ensures
        ({
            let (importer, groups) = lock.importers[i];
            let ahead = match kind {
                RootKind::Prod => 0,
                RootKind::Dev => groups.dependencies.len(),
                RootKind::Optional => groups.dependencies.len() + groups.dev_dependencies.len(),
            };
            let (link, dep) = group_under(groups, kind)[j];
            let at = entries_before(lock.importers, i) + ahead + j;
            &&& 0 <= at < graph_of(lock)->Ok_0.roots.len()
            &&& becomes_root(importer, link, dep, kind, graph_of(lock)->Ok_0.roots[at])
        }),
{
    let entry = group_under(lock.importers[i].1, kind)[j];
    roots_are_laid_out(lock.importers, lock.importers.len() as int, i, kind, j);
    root_becomes(lock.importers[i].0, entry, kind);
}

} // verus!
