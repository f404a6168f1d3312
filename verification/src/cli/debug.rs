//! What `pudu debug` prints.

use vstd::prelude::*;

use crate::config::{Platform, PlatformModel};
use crate::dict::{Dict, Duplicate};
use crate::error::{LockError, PlatformWarning};
use crate::json::{
    a_member_is_found_under_its_name, add_item, add_member, items_model, json_model, json_text,
    list, list_texts, member_of, members_model, object, optional_text, print_json, text_or_null,
    texts_json, Json, JsonModel,
};
use crate::lock::graph::{
    graph_of, Edge, EdgeKind, EdgeModel, Graph, GraphModel, Node, NodeModel, Root, RootKind,
    RootModel,
};
use crate::lock::types::{
    Lockfile, LockfileModel, PackageMeta, PackageMetaModel, PeerMeta, PeerMetaModel, Resolution,
    ResolutionModel, Settings, SettingsModel, Table,
};
use crate::platform::constraints::{constraint_labels, labels_of};
use crate::platform::prune::{
    prune, view_of, warnings_of, DroppedEdge, DroppedEdgeModel, PlatformView, PlatformViewModel,
};
use crate::text::{decimal, decimal_text};

verus! {

/// One platform and what pruning makes of the graph there.
#[derive(Debug, PartialEq)]
pub struct PlatformReport {
    pub name: String,
    pub os: &'static str,
    pub cpu: &'static str,
    pub libc: Option<&'static str>,
    /// The labels it selects on.
    pub constraints: Vec<String>,
    /// The labels come from the configuration.
    pub constraints_overridden: bool,
    /// How many packages survive.
    pub node_count: usize,
    pub pruned: Vec<String>,
    pub dropped_required_edges: Vec<DroppedEdge>,
}

/// The mathematical value of a [`PlatformReport`].
pub struct PlatformReportModel {
    pub name: Seq<char>,
    pub os: Seq<char>,
    pub cpu: Seq<char>,
    pub libc: Option<Seq<char>>,
    pub constraints: Seq<Seq<char>>,
    pub constraints_overridden: bool,
    pub node_count: nat,
    pub pruned: Seq<Seq<char>>,
    pub dropped_required_edges: Seq<DroppedEdgeModel>,
}

impl DeepView for PlatformReport {
    type V = PlatformReportModel;

    open spec fn deep_view(&self) -> PlatformReportModel {
        PlatformReportModel {
            name: self.name@,
            os: self.os@,
            cpu: self.cpu@,
            libc: match self.libc {
                Some(l) => Some(l@),
                None => None,
            },
            constraints: self.constraints.deep_view(),
            constraints_overridden: self.constraints_overridden,
            node_count: self.node_count as nat,
            pruned: self.pruned.deep_view(),
            dropped_required_edges: self.dropped_required_edges.deep_view(),
        }
    }
}

/// The report on a platform with this view.
pub open spec fn report_of(
    name: Seq<char>,
    platform: PlatformModel,
    all: Table<PlatformModel>,
    view: PlatformViewModel,
) -> PlatformReportModel {
    PlatformReportModel {
        name,
        os: platform.os.npm(),
        cpu: platform.cpu.npm(),
        libc: match platform.libc {
            Some(l) => Some(l.npm()),
            None => None,
        },
        constraints: labels_of(platform, all),
        constraints_overridden: platform.constraints is Some,
        node_count: view.nodes.len(),
        pruned: view.pruned,
        dropped_required_edges: view.dropped_required_edges,
    }
}

fn report(name: &str, platform: &Platform, all: &Dict<Platform>, view: &PlatformView) -> (r:
    PlatformReport)
    ensures
        r.deep_view() == report_of(
            name@,
            platform.deep_view(),
            all.deep_view(),
            view.deep_view(),
        ),
{
    let libc = match platform.libc {
        Some(l) => Some(l.as_npm()),
        None => None,
    };
    PlatformReport {
        name: name.to_owned(),
        os: platform.os.as_npm(),
        cpu: platform.cpu.as_npm(),
        libc,
        constraints: constraint_labels(platform, all),
        constraints_overridden: platform.constraints.is_some(),
        node_count: view.nodes.len(),
        pruned: view.pruned.to_list(),
        dropped_required_edges: view.dropped_required_edges.duplicate(),
    }
}

/// The reports on the first `n` platforms.
pub open spec fn reports_of(
    nodes: Table<NodeModel>,
    platforms: Table<PlatformModel>,
    n: int,
) -> Seq<PlatformReportModel> {
    Seq::new(
        n as nat,
        |i: int|
            report_of(
                platforms[i].0,
                platforms[i].1,
                platforms,
                view_of(nodes, platforms[i].1),
            ),
    )
}

/// Reports on every configured platform, in the order of their names.
pub fn platforms(graph: &Graph, configured: &Dict<Platform>) -> (r: (
    Vec<PlatformReport>,
    Vec<PlatformWarning>,
))
    ensures
        r.0.deep_view() == reports_of(
            graph.deep_view().nodes,
            configured.deep_view(),
            configured.deep_view().len() as int,
        ),
        r.1.deep_view() == warnings_of(graph.deep_view().nodes, configured.deep_view()),
{
    let ghost nodes = graph.deep_view().nodes;
    let ghost table = configured.deep_view();
    let (matrix, warnings) = prune(graph, configured);
    let mut out: Vec<PlatformReport> = Vec::new();
    let mut i: usize = 0;
    assert(out.deep_view() =~= reports_of(nodes, table, 0));
    while i < configured.len()
        invariant
            table == configured.deep_view(),
            matrix.views.deep_view().len() == table.len(),
            forall|k: int|
                0 <= k < table.len() ==> (#[trigger] matrix.views.deep_view()[k]) == (
                    table[k].0,
                    view_of(nodes, table[k].1),
                ),
            i <= table.len(),
            out.deep_view() == reports_of(nodes, table, i as int),
        decreases table.len() - i,
    {
        let name = configured.key(i);
        let platform = configured.value(i);
        let view = matrix.views.value(i);
        assert(table[i as int] == (name@, platform.deep_view()));
        assert(matrix.views.deep_view()[i as int].1 == view.deep_view());
        let ghost prior = out.deep_view();
        let found = report(name, platform, configured, view);
        let ghost model = found.deep_view();
        out.push(found);
        i += 1;
        assert(out.deep_view() =~= prior.push(model));
        assert(out.deep_view() =~= reports_of(nodes, table, i as int));
    }
    (out, warnings)
}

// --- Platforms as JSON ----------------------------------------------------------

/// A dropped edge as a value.
pub open spec fn dropped_json(e: DroppedEdgeModel) -> JsonModel {
    JsonModel::Object(
        seq![
            ("dependent"@, JsonModel::Text(e.dependent)),
            ("link_name"@, JsonModel::Text(e.link_name)),
            ("target"@, JsonModel::Text(e.target)),
        ],
    )
}

fn dropped_value(e: &DroppedEdge) -> (r: Json)
    ensures
        json_model(r) == dropped_json(e.deep_view()),
{
    let mut members: Vec<(String, Json)> = Vec::new();
    assert(members_model(members@) =~= Seq::empty());
    add_member(&mut members, "dependent", Json::Text(e.dependent.clone()));
    add_member(&mut members, "link_name", Json::Text(e.link_name.clone()));
    add_member(&mut members, "target", Json::Text(e.target.clone()));
    assert(members_model(members@) =~= dropped_json(e.deep_view())->Object_0);
    object(members)
}

/// Dropped edges as a list.
pub open spec fn all_dropped_json(edges: Seq<DroppedEdgeModel>) -> JsonModel {
    JsonModel::List(edges.map_values(|e: DroppedEdgeModel| dropped_json(e)))
}

fn all_dropped_value(edges: &Vec<DroppedEdge>) -> (r: Json)
    ensures
        json_model(r) == all_dropped_json(edges.deep_view()),
{
    let ghost want = all_dropped_json(edges.deep_view())->List_0;
    let mut items: Vec<Json> = Vec::new();
    let mut i: usize = 0;
    assert(items_model(items@) =~= want.take(0));
    while i < edges.len()
        invariant
            want == all_dropped_json(edges.deep_view())->List_0,
            want.len() == edges.len(),
            i <= edges.len(),
            items_model(items@) == want.take(i as int),
        decreases edges.len() - i,
    {
        assert(edges.deep_view()[i as int] == edges@[i as int].deep_view());
        add_item(&mut items, dropped_value(&edges[i]));
        i += 1;
        assert(items_model(items@) =~= want.take(i as int));
    }
    assert(want.take(i as int) =~= want);
    list(items)
}

/// A report as a value. Every key is the library's own, so every key is in snake
/// case.
pub open spec fn report_json(r: PlatformReportModel) -> JsonModel {
    JsonModel::Object(
        seq![
            ("os"@, JsonModel::Text(r.os)),
            ("cpu"@, JsonModel::Text(r.cpu)),
            ("libc"@, optional_text(r.libc)),
            ("constraints"@, texts_json(r.constraints)),
            ("constraints_overridden"@, JsonModel::Bool(r.constraints_overridden)),
            ("node_count"@, JsonModel::Number(decimal_text(r.node_count))),
            ("pruned"@, texts_json(r.pruned)),
            ("dropped_required_edges"@, all_dropped_json(r.dropped_required_edges)),
        ],
    )
}

fn report_value(report: &PlatformReport) -> (r: Json)
    ensures
        json_model(r) == report_json(report.deep_view()),
{
    let mut members: Vec<(String, Json)> = Vec::new();
    assert(members_model(members@) =~= Seq::empty());
    add_member(&mut members, "os", Json::Text(report.os.to_owned()));
    add_member(&mut members, "cpu", Json::Text(report.cpu.to_owned()));
    add_member(&mut members, "libc", text_or_null(report.libc));
    add_member(&mut members, "constraints", list_texts(&report.constraints));
    add_member(
        &mut members,
        "constraints_overridden",
        Json::Bool(report.constraints_overridden),
    );
    add_member(&mut members, "node_count", Json::Number(decimal(report.node_count as u64)));
    add_member(&mut members, "pruned", list_texts(&report.pruned));
    add_member(
        &mut members,
        "dropped_required_edges",
        all_dropped_value(&report.dropped_required_edges),
    );
    assert(members_model(members@) =~= report_json(report.deep_view())->Object_0);
    object(members)
}

/// All reports as a value, keyed by platform.
pub open spec fn reports_json(reports: Seq<PlatformReportModel>) -> JsonModel {
    JsonModel::Object(
        seq![
            (
                "platforms"@,
                JsonModel::Object(
                    reports.map_values(|r: PlatformReportModel| (r.name, report_json(r))),
                ),
            ),
        ],
    )
}

/// Turns reports into a value.
pub fn reports_value(reports: &Vec<PlatformReport>) -> (r: Json)
    ensures
        json_model(r) == reports_json(reports.deep_view()),
{
    let ghost want = reports.deep_view().map_values(
        |r: PlatformReportModel| (r.name, report_json(r)),
    );
    let mut inner: Vec<(String, Json)> = Vec::new();
    let mut i: usize = 0;
    assert(members_model(inner@) =~= want.take(0));
    while i < reports.len()
        invariant
            want == reports.deep_view().map_values(
                |r: PlatformReportModel| (r.name, report_json(r)),
            ),
            want.len() == reports.len(),
            i <= reports.len(),
            members_model(inner@) == want.take(i as int),
        decreases reports.len() - i,
    {
        assert(reports.deep_view()[i as int] == reports@[i as int].deep_view());
        add_member(&mut inner, reports[i].name.as_str(), report_value(&reports[i]));
        i += 1;
        assert(members_model(inner@) =~= want.take(i as int));
    }
    assert(want.take(i as int) =~= want);
    let mut members: Vec<(String, Json)> = Vec::new();
    assert(members_model(members@) =~= Seq::empty());
    add_member(&mut members, "platforms", object(inner));
    object(members)
}

/// Writes reports.
pub fn reports_text(reports: &Vec<PlatformReport>) -> (r: String)
    ensures
        r@ == json_text(reports_json(reports.deep_view())),
{
    print_json(&reports_value(reports))
}

// --- The graph as JSON ----------------------------------------------------------

/// A table as an object, each value in its own way.
pub open spec fn table_json<T>(t: Table<T>, f: spec_fn(T) -> JsonModel) -> JsonModel {
    JsonModel::Object(t.map_values(|e: (Seq<char>, T)| (e.0, f(e.1))))
}

/// A list, each item in its own way.
pub open spec fn list_json<T>(items: Seq<T>, f: spec_fn(T) -> JsonModel) -> JsonModel {
    JsonModel::List(items.map_values(|e: T| f(e)))
}

fn string_table(d: &Dict<String>) -> (r: Json)
    ensures
        json_model(r) == table_json(d.deep_view(), |s: Seq<char>| JsonModel::Text(s)),
{
    let ghost f = |s: Seq<char>| JsonModel::Text(s);
    let ghost table = d.deep_view();
    let ghost want = table_json(table, f)->Object_0;
    let mut members: Vec<(String, Json)> = Vec::new();
    let mut i: usize = 0;
    assert(members_model(members@) =~= want.take(0));
    while i < d.len()
        invariant
            f == (|s: Seq<char>| JsonModel::Text(s)),
            table == d.deep_view(),
            want == table_json(table, f)->Object_0,
            want.len() == table.len(),
            i <= table.len(),
            members_model(members@) == want.take(i as int),
        decreases table.len() - i,
    {
        let value = d.value(i);
        assert(table[i as int] == (d@[i as int].0@, value@));
        add_member(&mut members, d.key(i), Json::Text(value.clone()));
        i += 1;
        assert(members_model(members@) =~= want.take(i as int));
    }
    assert(want.take(i as int) =~= want);
    object(members)
}

/// What is known of a peer dependency, as a value.
pub open spec fn peer_json(m: PeerMetaModel) -> JsonModel {
    JsonModel::Object(seq![("optional"@, JsonModel::Bool(m.optional))])
}

fn peer_value(m: &PeerMeta) -> (r: Json)
    ensures
        json_model(r) == peer_json(m.deep_view()),
{
    let mut members: Vec<(String, Json)> = Vec::new();
    assert(members_model(members@) =~= Seq::empty());
    add_member(&mut members, "optional", Json::Bool(m.optional));
    object(members)
}

fn peer_table(d: &Dict<PeerMeta>) -> (r: Json)
    ensures
        json_model(r) == table_json(d.deep_view(), |m: PeerMetaModel| peer_json(m)),
{
    let ghost f = |m: PeerMetaModel| peer_json(m);
    let ghost table = d.deep_view();
    let ghost want = table_json(table, f)->Object_0;
    let mut members: Vec<(String, Json)> = Vec::new();
    let mut i: usize = 0;
    assert(members_model(members@) =~= want.take(0));
    while i < d.len()
        invariant
            f == (|m: PeerMetaModel| peer_json(m)),
            table == d.deep_view(),
            want == table_json(table, f)->Object_0,
            want.len() == table.len(),
            i <= table.len(),
            members_model(members@) == want.take(i as int),
        decreases table.len() - i,
    {
        let value = d.value(i);
        assert(table[i as int] == (d@[i as int].0@, value.deep_view()));
        add_member(&mut members, d.key(i), peer_value(value));
        i += 1;
        assert(members_model(members@) =~= want.take(i as int));
    }
    assert(want.take(i as int) =~= want);
    object(members)
}

/// A resolution as a value.
pub open spec fn resolution_json(r: ResolutionModel) -> JsonModel {
    JsonModel::Object(
        match r {
            ResolutionModel::Integrity { integrity } => seq![
                ("integrity"@, JsonModel::Text(integrity)),
            ],
            ResolutionModel::Tarball { tarball, integrity } => seq![
                ("tarball"@, JsonModel::Text(tarball)),
                ("integrity"@, optional_text(integrity)),
            ],
            ResolutionModel::Git { repo, commit } => seq![
                ("repo"@, JsonModel::Text(repo)),
                ("commit"@, JsonModel::Text(commit)),
            ],
            ResolutionModel::Directory { directory, kind } => seq![
                ("directory"@, JsonModel::Text(directory)),
                ("type"@, JsonModel::Text(kind)),
            ],
        },
    )
}

fn resolution_value(resolution: &Resolution) -> (r: Json)
    ensures
        json_model(r) == resolution_json(resolution.deep_view()),
{
    let mut members: Vec<(String, Json)> = Vec::new();
    assert(members_model(members@) =~= Seq::empty());
    match resolution {
        Resolution::Integrity { integrity } => {
            add_member(&mut members, "integrity", Json::Text(integrity.clone()));
        },
        Resolution::Tarball { tarball, integrity } => {
            add_member(&mut members, "tarball", Json::Text(tarball.clone()));
            add_member(&mut members, "integrity", owned_or_null(integrity));
        },
        Resolution::Git { repo, commit } => {
            add_member(&mut members, "repo", Json::Text(repo.clone()));
            add_member(&mut members, "commit", Json::Text(commit.clone()));
        },
        Resolution::Directory { directory, kind } => {
            add_member(&mut members, "directory", Json::Text(directory.clone()));
            add_member(&mut members, "type", Json::Text(kind.clone()));
        },
    }
    assert(members_model(members@) =~= resolution_json(resolution.deep_view())->Object_0);
    object(members)
}

fn owned_or_null(t: &Option<String>) -> (r: Json)
    ensures
        json_model(r) == optional_text(t.deep_view()),
{
    match t {
        Some(s) => text_or_null(Some(s.as_str())),
        None => text_or_null(None),
    }
}

/// A list of texts or nothing.
pub open spec fn optional_texts(t: Option<Seq<Seq<char>>>) -> JsonModel {
    match t {
        Some(texts) => texts_json(texts),
        None => JsonModel::Null,
    }
}

fn texts_or_null(t: &Option<Vec<String>>) -> (r: Json)
    ensures
        json_model(r) == optional_texts(t.deep_view()),
{
    match t {
        Some(texts) => list_texts(texts),
        None => Json::Null,
    }
}

/// A package's metadata as a value. Its keys echo the lockfile, so they are spelled
/// as it spells them.
pub open spec fn meta_json(m: PackageMetaModel) -> JsonModel {
    JsonModel::Object(
        seq![
            ("resolution"@, resolution_json(m.resolution)),
            ("engines"@, table_json(m.engines, |s: Seq<char>| JsonModel::Text(s))),
            ("os"@, optional_texts(m.os)),
            ("cpu"@, optional_texts(m.cpu)),
            ("libc"@, optional_texts(m.libc)),
            ("hasBin"@, JsonModel::Bool(m.has_bin)),
            ("deprecated"@, optional_text(m.deprecated)),
            (
                "peerDependencies"@,
                table_json(m.peer_dependencies, |s: Seq<char>| JsonModel::Text(s)),
            ),
            (
                "peerDependenciesMeta"@,
                table_json(m.peer_dependencies_meta, |p: PeerMetaModel| peer_json(p)),
            ),
            ("bundledDependencies"@, texts_json(m.bundled_dependencies)),
        ],
    )
}

fn meta_value(m: &PackageMeta) -> (r: Json)
    ensures
        json_model(r) == meta_json(m.deep_view()),
{
    let mut members: Vec<(String, Json)> = Vec::new();
    assert(members_model(members@) =~= Seq::empty());
    add_member(&mut members, "resolution", resolution_value(&m.resolution));
    add_member(&mut members, "engines", string_table(&m.engines));
    add_member(&mut members, "os", texts_or_null(&m.os));
    add_member(&mut members, "cpu", texts_or_null(&m.cpu));
    add_member(&mut members, "libc", texts_or_null(&m.libc));
    add_member(&mut members, "hasBin", Json::Bool(m.has_bin));
    add_member(&mut members, "deprecated", owned_or_null(&m.deprecated));
    add_member(&mut members, "peerDependencies", string_table(&m.peer_dependencies));
    add_member(&mut members, "peerDependenciesMeta", peer_table(&m.peer_dependencies_meta));
    add_member(&mut members, "bundledDependencies", list_texts(&m.bundled_dependencies));
    assert(members_model(members@) =~= meta_json(m.deep_view())->Object_0);
    object(members)
}

/// An edge as a value.
pub open spec fn edge_json(e: EdgeModel) -> JsonModel {
    JsonModel::Object(
        seq![
            ("link_name"@, JsonModel::Text(e.link_name)),
            ("target"@, JsonModel::Text(e.target)),
            (
                "kind"@,
                JsonModel::Text(
                    match e.kind {
                        EdgeKind::Prod => "prod"@,
                        EdgeKind::Optional => "optional"@,
                    },
                ),
            ),
        ],
    )
}

fn edge_value(e: &Edge) -> (r: Json)
    ensures
        json_model(r) == edge_json(e.deep_view()),
{
    let kind = match e.kind {
        EdgeKind::Prod => "prod",
        EdgeKind::Optional => "optional",
    };
    let mut members: Vec<(String, Json)> = Vec::new();
    assert(members_model(members@) =~= Seq::empty());
    add_member(&mut members, "link_name", Json::Text(e.link_name.clone()));
    add_member(&mut members, "target", Json::Text(e.target.clone()));
    add_member(&mut members, "kind", Json::Text(kind.to_owned()));
    assert(members_model(members@) =~= edge_json(e.deep_view())->Object_0);
    object(members)
}

fn edge_list(edges: &Vec<Edge>) -> (r: Json)
    ensures
        json_model(r) == list_json(edges.deep_view(), |e: EdgeModel| edge_json(e)),
{
    let ghost f = |e: EdgeModel| edge_json(e);
    let ghost want = list_json(edges.deep_view(), f)->List_0;
    let mut items: Vec<Json> = Vec::new();
    let mut i: usize = 0;
    assert(items_model(items@) =~= want.take(0));
    while i < edges.len()
        invariant
            f == (|e: EdgeModel| edge_json(e)),
            want == list_json(edges.deep_view(), f)->List_0,
            want.len() == edges.len(),
            i <= edges.len(),
            items_model(items@) == want.take(i as int),
        decreases edges.len() - i,
    {
        assert(edges.deep_view()[i as int] == edges@[i as int].deep_view());
        add_item(&mut items, edge_value(&edges[i]));
        i += 1;
        assert(items_model(items@) =~= want.take(i as int));
    }
    assert(want.take(i as int) =~= want);
    list(items)
}

/// A node as a value.
pub open spec fn node_json(n: NodeModel) -> JsonModel {
    JsonModel::Object(
        seq![
            ("name"@, JsonModel::Text(n.name)),
            ("version"@, JsonModel::Text(n.version)),
            ("peers"@, texts_json(n.peers)),
            ("target_name"@, JsonModel::Text(n.target_name)),
            ("optional"@, JsonModel::Bool(n.optional)),
            ("meta"@, meta_json(n.meta)),
            ("edges"@, list_json(n.edges, |e: EdgeModel| edge_json(e))),
        ],
    )
}

fn node_value(n: &Node) -> (r: Json)
    ensures
        json_model(r) == node_json(n.deep_view()),
{
    let mut members: Vec<(String, Json)> = Vec::new();
    assert(members_model(members@) =~= Seq::empty());
    add_member(&mut members, "name", Json::Text(n.name.clone()));
    add_member(&mut members, "version", Json::Text(n.version.clone()));
    add_member(&mut members, "peers", list_texts(&n.peers));
    add_member(&mut members, "target_name", Json::Text(n.target_name.clone()));
    add_member(&mut members, "optional", Json::Bool(n.optional));
    add_member(&mut members, "meta", meta_value(&n.meta));
    add_member(&mut members, "edges", edge_list(&n.edges));
    assert(members_model(members@) =~= node_json(n.deep_view())->Object_0);
    object(members)
}

fn node_table(d: &Dict<Node>) -> (r: Json)
    ensures
        json_model(r) == table_json(d.deep_view(), |n: NodeModel| node_json(n)),
{
    let ghost f = |n: NodeModel| node_json(n);
    let ghost table = d.deep_view();
    let ghost want = table_json(table, f)->Object_0;
    let mut members: Vec<(String, Json)> = Vec::new();
    let mut i: usize = 0;
    assert(members_model(members@) =~= want.take(0));
    while i < d.len()
        invariant
            f == (|n: NodeModel| node_json(n)),
            table == d.deep_view(),
            want == table_json(table, f)->Object_0,
            want.len() == table.len(),
            i <= table.len(),
            members_model(members@) == want.take(i as int),
        decreases table.len() - i,
    {
        let value = d.value(i);
        assert(table[i as int] == (d@[i as int].0@, value.deep_view()));
        add_member(&mut members, d.key(i), node_value(value));
        i += 1;
        assert(members_model(members@) =~= want.take(i as int));
    }
    assert(want.take(i as int) =~= want);
    object(members)
}

/// A root as a value.
pub open spec fn root_json(r: RootModel) -> JsonModel {
    JsonModel::Object(
        seq![
            ("importer"@, JsonModel::Text(r.importer)),
            ("link_name"@, JsonModel::Text(r.link_name)),
            ("target"@, optional_text(r.target)),
            ("specifier"@, JsonModel::Text(r.specifier)),
            (
                "kind"@,
                JsonModel::Text(
                    match r.kind {
                        RootKind::Prod => "prod"@,
                        RootKind::Dev => "dev"@,
                        RootKind::Optional => "optional"@,
                    },
                ),
            ),
        ],
    )
}

fn root_value(root: &Root) -> (r: Json)
    ensures
        json_model(r) == root_json(root.deep_view()),
{
    let kind = match root.kind {
        RootKind::Prod => "prod",
        RootKind::Dev => "dev",
        RootKind::Optional => "optional",
    };
    let mut members: Vec<(String, Json)> = Vec::new();
    assert(members_model(members@) =~= Seq::empty());
    add_member(&mut members, "importer", Json::Text(root.importer.clone()));
    add_member(&mut members, "link_name", Json::Text(root.link_name.clone()));
    add_member(&mut members, "target", owned_or_null(&root.target));
    add_member(&mut members, "specifier", Json::Text(root.specifier.clone()));
    add_member(&mut members, "kind", Json::Text(kind.to_owned()));
    assert(members_model(members@) =~= root_json(root.deep_view())->Object_0);
    object(members)
}

fn root_list(roots: &Vec<Root>) -> (r: Json)
    ensures
        json_model(r) == list_json(roots.deep_view(), |e: RootModel| root_json(e)),
{
    let ghost f = |e: RootModel| root_json(e);
    let ghost want = list_json(roots.deep_view(), f)->List_0;
    let mut items: Vec<Json> = Vec::new();
    let mut i: usize = 0;
    assert(items_model(items@) =~= want.take(0));
    while i < roots.len()
        invariant
            f == (|e: RootModel| root_json(e)),
            want == list_json(roots.deep_view(), f)->List_0,
            want.len() == roots.len(),
            i <= roots.len(),
            items_model(items@) == want.take(i as int),
        decreases roots.len() - i,
    {
        assert(roots.deep_view()[i as int] == roots@[i as int].deep_view());
        add_item(&mut items, root_value(&roots[i]));
        i += 1;
        assert(items_model(items@) =~= want.take(i as int));
    }
    assert(want.take(i as int) =~= want);
    list(items)
}

fn cycle_list(cycles: &Vec<Vec<String>>) -> (r: Json)
    ensures
        json_model(r) == list_json(cycles.deep_view(), |c: Seq<Seq<char>>| texts_json(c)),
{
    let ghost f = |c: Seq<Seq<char>>| texts_json(c);
    let ghost want = list_json(cycles.deep_view(), f)->List_0;
    let mut items: Vec<Json> = Vec::new();
    let mut i: usize = 0;
    assert(items_model(items@) =~= want.take(0));
    while i < cycles.len()
        invariant
            f == (|c: Seq<Seq<char>>| texts_json(c)),
            want == list_json(cycles.deep_view(), f)->List_0,
            want.len() == cycles.len(),
            i <= cycles.len(),
            items_model(items@) == want.take(i as int),
        decreases cycles.len() - i,
    {
        assert(cycles.deep_view()[i as int] == cycles@[i as int].deep_view());
        add_item(&mut items, list_texts(&cycles[i]));
        i += 1;
        assert(items_model(items@) =~= want.take(i as int));
    }
    assert(want.take(i as int) =~= want);
    list(items)
}

/// A lockfile's settings as a value.
pub open spec fn settings_json(s: SettingsModel) -> JsonModel {
    JsonModel::Object(
        seq![
            ("autoInstallPeers"@, JsonModel::Bool(s.auto_install_peers)),
            ("excludeLinksFromLockfile"@, JsonModel::Bool(s.exclude_links_from_lockfile)),
        ],
    )
}

fn settings_value(s: &Settings) -> (r: Json)
    ensures
        json_model(r) == settings_json(s.deep_view()),
{
    let mut members: Vec<(String, Json)> = Vec::new();
    assert(members_model(members@) =~= Seq::empty());
    add_member(&mut members, "autoInstallPeers", Json::Bool(s.auto_install_peers));
    add_member(
        &mut members,
        "excludeLinksFromLockfile",
        Json::Bool(s.exclude_links_from_lockfile),
    );
    assert(members_model(members@) =~= settings_json(s.deep_view())->Object_0);
    object(members)
}

/// A graph and the lockfile it was built from, as a value. The version is the one
/// that the lockfile states.
pub open spec fn graph_json(l: LockfileModel, g: GraphModel) -> JsonModel {
    JsonModel::Object(
        seq![
            ("lockfile_version"@, JsonModel::Text(l.lockfile_version)),
            ("settings"@, settings_json(l.settings)),
            ("roots"@, list_json(g.roots, |e: RootModel| root_json(e))),
            ("nodes"@, table_json(g.nodes, |n: NodeModel| node_json(n))),
            ("cycles"@, list_json(g.cycles, |c: Seq<Seq<char>>| texts_json(c))),
        ],
    )
}

/// Turns a graph into a value.
pub fn graph_value(lockfile: &Lockfile, graph: &Graph) -> (r: Json)
    ensures
        json_model(r) == graph_json(lockfile.deep_view(), graph.deep_view()),
{
    let mut members: Vec<(String, Json)> = Vec::new();
    assert(members_model(members@) =~= Seq::empty());
    add_member(&mut members, "lockfile_version", Json::Text(lockfile.lockfile_version.clone()));
    add_member(&mut members, "settings", settings_value(&lockfile.settings));
    add_member(&mut members, "roots", root_list(&graph.roots));
    add_member(&mut members, "nodes", node_table(&graph.nodes));
    add_member(&mut members, "cycles", cycle_list(&graph.cycles));
    assert(members_model(members@) =~= graph_json(lockfile.deep_view(), graph.deep_view())->Object_0);
    object(members)
}

/// Builds the graph of a lockfile and writes it.
pub fn print_graph(lockfile: &Lockfile) -> (r: Result<String, LockError>)
    ensures
        match (graph_of(lockfile.deep_view()), r) {
            (Ok(g), Ok(text)) => text@ == json_text(graph_json(lockfile.deep_view(), g)),
            (Err(m), Err(e)) => e.deep_view() == m,
            _ => false,
        },
{
    match Graph::build(lockfile) {
        Ok(graph) => Ok(print_json(&graph_value(lockfile, &graph))),
        Err(e) => Err(e),
    }
}

// --- Laws -----------------------------------------------------------------------

proof fn report_keys_differ()
    ensures
        "os"@.len() == 2,
        "cpu"@.len() == 3,
        "libc"@.len() == 4,
        "constraints"@.len() == 11,
        "constraints_overridden"@.len() == 22,
        "node_count"@.len() == 10,
        "pruned"@.len() == 6,
        "dropped_required_edges"@.len() == 22,
        "constraints_overridden"@[0] != "dropped_required_edges"@[0],
{
    reveal_strlit("os");
    reveal_strlit("cpu");
    reveal_strlit("libc");
    reveal_strlit("constraints");
    reveal_strlit("constraints_overridden");
    reveal_strlit("node_count");
    reveal_strlit("pruned");
    reveal_strlit("dropped_required_edges");
}

/// A reader finds a platform under its name, and there what the platform is, in npm's
/// words, how many instances it keeps, and which it loses.
pub proof fn a_report_says_what_a_platform_keeps(
    nodes: Table<NodeModel>,
    platforms: Table<PlatformModel>,
    p: int,
)
    requires
        0 <= p < platforms.len(),
        forall|i: int, j: int|
            0 <= i < j < platforms.len() ==> (#[trigger] platforms[i]).0 != (
            #[trigger] platforms[j]).0,
    ensures
        ({
            let all = reports_json(reports_of(nodes, platforms, platforms.len() as int));
            let (name, platform) = platforms[p];
            let view = view_of(nodes, platform);
            &&& member_of(all, "platforms"@) is Some
            &&& member_of(member_of(all, "platforms"@)->Some_0, name) is Some
            &&& {
                let found = member_of(member_of(all, "platforms"@)->Some_0, name)->Some_0;
                &&& member_of(found, "os"@) == Some(JsonModel::Text(platform.os.npm()))
                &&& member_of(found, "cpu"@) == Some(JsonModel::Text(platform.cpu.npm()))
                &&& member_of(found, "libc"@) == match platform.libc {
                    Some(l) => Some(JsonModel::Text(l.npm())),
                    None => Some(JsonModel::Null),
                }
                &&& member_of(found, "constraints"@) == Some(
                    texts_json(labels_of(platform, platforms)),
                )
                &&& member_of(found, "constraints_overridden"@) == Some(
                    JsonModel::Bool(platform.constraints is Some),
                )
                &&& member_of(found, "node_count"@) == Some(
                    JsonModel::Number(decimal_text(view.nodes.len())),
                )
                &&& member_of(found, "pruned"@) == Some(texts_json(view.pruned))
                &&& member_of(found, "dropped_required_edges"@) == Some(
                    all_dropped_json(view.dropped_required_edges),
                )
            }
        }),
{
    let reports = reports_of(nodes, platforms, platforms.len() as int);
    let all = reports_json(reports);
    let inner = reports.map_values(|r: PlatformReportModel| (r.name, report_json(r)));
    let (name, platform) = platforms[p];
    assert forall|j: int| 0 <= j < p implies (#[trigger] inner[j]).0 != inner[p].0 by {
        assert(platforms[j].0 != platforms[p].0);
    }
    a_member_is_found_under_its_name(inner, p);
    a_member_is_found_under_its_name(all->Object_0, 0);
    assert(inner[p].0 == name);
    let report = report_json(reports[p]);
    let ms = report->Object_0;
    report_keys_differ();
    a_member_is_found_under_its_name(ms, 0);
    a_member_is_found_under_its_name(ms, 1);
    a_member_is_found_under_its_name(ms, 2);
    a_member_is_found_under_its_name(ms, 3);
    a_member_is_found_under_its_name(ms, 4);
    a_member_is_found_under_its_name(ms, 5);
    a_member_is_found_under_its_name(ms, 6);
    a_member_is_found_under_its_name(ms, 7);
}

proof fn node_keys_differ()
    ensures
        "name"@.len() == 4,
        "version"@.len() == 7,
        "peers"@.len() == 5,
        "target_name"@.len() == 11,
        "optional"@.len() == 8,
        "meta"@.len() == 4,
        "edges"@.len() == 5,
        "name"@[0] != "meta"@[0],
        "peers"@[0] != "edges"@[0],
        "dependent"@.len() == 9,
        "link_name"@.len() == 9,
        "specifier"@.len() == 9,
        "dependent"@[0] != "link_name"@[0],
        "specifier"@[0] != "link_name"@[0],
        "target"@.len() == 6,
        "kind"@.len() == 4,
        "importer"@.len() == 8,
        "lockfile_version"@.len() == 16,
        "settings"@.len() == 8,
        "roots"@.len() == 5,
        "nodes"@.len() == 5,
        "cycles"@.len() == 6,
        "roots"@[0] != "nodes"@[0],
{
    reveal_strlit("name");
    reveal_strlit("version");
    reveal_strlit("peers");
    reveal_strlit("target_name");
    reveal_strlit("optional");
    reveal_strlit("meta");
    reveal_strlit("edges");
    reveal_strlit("dependent");
    reveal_strlit("link_name");
    reveal_strlit("specifier");
    reveal_strlit("target");
    reveal_strlit("kind");
    reveal_strlit("importer");
    reveal_strlit("lockfile_version");
    reveal_strlit("settings");
    reveal_strlit("roots");
    reveal_strlit("nodes");
    reveal_strlit("cycles");
}

/// A reader finds an instance under its key, and there its package, its peers, its target
/// and its dependencies, one for one.
pub proof fn a_printed_graph_holds_its_nodes(l: LockfileModel, g: GraphModel, i: int)
    requires
        0 <= i < g.nodes.len(),
        forall|a: int, b: int|
            0 <= a < b < g.nodes.len() ==> (#[trigger] g.nodes[a]).0 != (#[trigger] g.nodes[b]).0,
    ensures
        ({
            let all = graph_json(l, g);
            let (key, node) = g.nodes[i];
            &&& member_of(all, "lockfile_version"@) == Some(JsonModel::Text(l.lockfile_version))
            &&& member_of(all, "nodes"@) is Some
            &&& member_of(member_of(all, "nodes"@)->Some_0, key) is Some
            &&& {
                let found = member_of(member_of(all, "nodes"@)->Some_0, key)->Some_0;
                let edges = member_of(found, "edges"@);
                &&& member_of(found, "name"@) == Some(JsonModel::Text(node.name))
                &&& member_of(found, "version"@) == Some(JsonModel::Text(node.version))
                &&& member_of(found, "peers"@) == Some(texts_json(node.peers))
                &&& member_of(found, "target_name"@) == Some(JsonModel::Text(node.target_name))
                &&& member_of(found, "optional"@) == Some(JsonModel::Bool(node.optional))
                &&& member_of(found, "meta"@) == Some(meta_json(node.meta))
                &&& edges is Some && edges->Some_0 is List && edges->Some_0->List_0.len()
                    == node.edges.len()
                &&& forall|e: int|
                    0 <= e < node.edges.len() ==> {
                        let printed = #[trigger] edges->Some_0->List_0[e];
                        &&& member_of(printed, "link_name"@) == Some(
                            JsonModel::Text(node.edges[e].link_name),
                        )
                        &&& member_of(printed, "target"@) == Some(
                            JsonModel::Text(node.edges[e].target),
                        )
                        &&& member_of(printed, "kind"@) == Some(
                            JsonModel::Text(
                                if node.edges[e].kind is Optional {
                                    "optional"@
                                } else {
                                    "prod"@
                                },
                            ),
                        )
                    }
            }
        }),
{
    let top = graph_json(l, g)->Object_0;
    let f = |n: NodeModel| node_json(n);
    let inner = table_json(g.nodes, f)->Object_0;
    let (key, node) = g.nodes[i];
    node_keys_differ();
    a_member_is_found_under_its_name(top, 0);
    a_member_is_found_under_its_name(top, 3);
    assert forall|j: int| 0 <= j < i implies (#[trigger] inner[j]).0 != inner[i].0 by {
        assert(g.nodes[j].0 != g.nodes[i].0);
    }
    assert(inner[i] == (key, node_json(node)));
    a_member_is_found_under_its_name(inner, i);
    let ms = node_json(node)->Object_0;
    a_member_is_found_under_its_name(ms, 0);
    a_member_is_found_under_its_name(ms, 1);
    a_member_is_found_under_its_name(ms, 2);
    a_member_is_found_under_its_name(ms, 3);
    a_member_is_found_under_its_name(ms, 4);
    a_member_is_found_under_its_name(ms, 5);
    a_member_is_found_under_its_name(ms, 6);
    let printed = list_json(node.edges, |e: EdgeModel| edge_json(e))->List_0;
    assert forall|e: int| 0 <= e < node.edges.len() implies {
        &&& member_of(#[trigger] printed[e], "link_name"@) == Some(
            JsonModel::Text(node.edges[e].link_name),
        )
        &&& member_of(printed[e], "target"@) == Some(JsonModel::Text(node.edges[e].target))
        &&& member_of(printed[e], "kind"@) == Some(
            JsonModel::Text(
                if node.edges[e].kind is Optional {
                    "optional"@
                } else {
                    "prod"@
                },
            ),
        )
    } by {
        assert(printed[e] == edge_json(node.edges[e]));
        let es = edge_json(node.edges[e])->Object_0;
        a_member_is_found_under_its_name(es, 0);
        a_member_is_found_under_its_name(es, 1);
        a_member_is_found_under_its_name(es, 2);
    }
}

/// A reader finds the roots in their order, each with its importer, its link, what it
/// leads to and what was asked for; and the cycles, each as the list of its members.
pub proof fn a_printed_graph_holds_its_roots(l: LockfileModel, g: GraphModel, i: int, c: int)
    requires
        0 <= i < g.roots.len(),
        0 <= c < g.cycles.len(),
    ensures
        ({
            let roots = member_of(graph_json(l, g), "roots"@);
            let cycles = member_of(graph_json(l, g), "cycles"@);
            let root = g.roots[i];
            &&& roots is Some && roots->Some_0 is List && roots->Some_0->List_0.len()
                == g.roots.len()
            &&& {
                let printed = roots->Some_0->List_0[i];
                &&& member_of(printed, "importer"@) == Some(JsonModel::Text(root.importer))
                &&& member_of(printed, "link_name"@) == Some(JsonModel::Text(root.link_name))
                &&& member_of(printed, "target"@) == match root.target {
                    Some(key) => Some(JsonModel::Text(key)),
                    None => Some(JsonModel::Null),
                }
                &&& member_of(printed, "specifier"@) == Some(JsonModel::Text(root.specifier))
                &&& member_of(printed, "kind"@) == Some(
                    JsonModel::Text(
                        if root.kind is Dev {
                            "dev"@
                        } else if root.kind is Optional {
                            "optional"@
                        } else {
                            "prod"@
                        },
                    ),
                )
            }
            &&& cycles is Some && cycles->Some_0 is List && cycles->Some_0->List_0.len()
                == g.cycles.len()
            &&& cycles->Some_0->List_0[c] == texts_json(g.cycles[c])
        }),
{
    let top = graph_json(l, g)->Object_0;
    node_keys_differ();
    a_member_is_found_under_its_name(top, 2);
    a_member_is_found_under_its_name(top, 4);
    let printed = list_json(g.roots, |e: RootModel| root_json(e))->List_0;
    assert(printed[i] == root_json(g.roots[i]));
    let ms = root_json(g.roots[i])->Object_0;
    a_member_is_found_under_its_name(ms, 0);
    a_member_is_found_under_its_name(ms, 1);
    a_member_is_found_under_its_name(ms, 2);
    a_member_is_found_under_its_name(ms, 3);
    a_member_is_found_under_its_name(ms, 4);
}

proof fn meta_keys_differ()
    ensures
        "resolution"@.len() == 10,
        "engines"@.len() == 7,
        "os"@.len() == 2,
        "cpu"@.len() == 3,
        "libc"@.len() == 4,
        "hasBin"@.len() == 6,
        "deprecated"@.len() == 10,
        "peerDependencies"@.len() == 16,
        "peerDependenciesMeta"@.len() == 20,
        "bundledDependencies"@.len() == 19,
        "resolution"@[0] != "deprecated"@[0],
        "tarball"@.len() == 7,
        "integrity"@.len() == 9,
        "repo"@.len() == 4,
        "commit"@.len() == 6,
        "directory"@.len() == 9,
        "type"@.len() == 4,
{
    reveal_strlit("resolution");
    reveal_strlit("engines");
    reveal_strlit("os");
    reveal_strlit("cpu");
    reveal_strlit("libc");
    reveal_strlit("hasBin");
    reveal_strlit("deprecated");
    reveal_strlit("peerDependencies");
    reveal_strlit("peerDependenciesMeta");
    reveal_strlit("bundledDependencies");
    reveal_strlit("tarball");
    reveal_strlit("integrity");
    reveal_strlit("repo");
    reveal_strlit("commit");
    reveal_strlit("directory");
    reveal_strlit("type");
}

/// What is known of a package is printed under the lockfile's own names for it.
pub proof fn printed_metadata_echoes_the_lockfile(m: PackageMetaModel)
    ensures
        ({
            let printed = meta_json(m);
            let from = member_of(printed, "resolution"@)->Some_0;
            &&& member_of(printed, "os"@) == Some(optional_texts(m.os))
            &&& member_of(printed, "cpu"@) == Some(optional_texts(m.cpu))
            &&& member_of(printed, "libc"@) == Some(optional_texts(m.libc))
            &&& member_of(printed, "hasBin"@) == Some(JsonModel::Bool(m.has_bin))
            &&& member_of(printed, "deprecated"@) == match m.deprecated {
                Some(text) => Some(JsonModel::Text(text)),
                None => Some(JsonModel::Null),
            }
            &&& member_of(printed, "bundledDependencies"@) == Some(
                texts_json(m.bundled_dependencies),
            )
            &&& member_of(printed, "resolution"@) is Some
            &&& match m.resolution {
                ResolutionModel::Integrity { integrity } => member_of(from, "integrity"@) == Some(
                    JsonModel::Text(integrity),
                ),
                ResolutionModel::Tarball { tarball, integrity } => member_of(from, "tarball"@)
                    == Some(JsonModel::Text(tarball)) && member_of(from, "integrity"@)
                    == match integrity {
                    Some(hash) => Some(JsonModel::Text(hash)),
                    None => Some(JsonModel::Null),
                },
                ResolutionModel::Git { repo, commit } => member_of(from, "repo"@) == Some(
                    JsonModel::Text(repo),
                ) && member_of(from, "commit"@) == Some(JsonModel::Text(commit)),
                ResolutionModel::Directory { directory, kind } => member_of(from, "directory"@)
                    == Some(JsonModel::Text(directory)) && member_of(from, "type"@) == Some(
                    JsonModel::Text(kind),
                ),
            }
        }),
{
    let ms = meta_json(m)->Object_0;
    meta_keys_differ();
    a_member_is_found_under_its_name(ms, 0);
    a_member_is_found_under_its_name(ms, 2);
    a_member_is_found_under_its_name(ms, 3);
    a_member_is_found_under_its_name(ms, 4);
    a_member_is_found_under_its_name(ms, 5);
    a_member_is_found_under_its_name(ms, 6);
    a_member_is_found_under_its_name(ms, 9);
    let rs = resolution_json(m.resolution)->Object_0;
    a_member_is_found_under_its_name(rs, 0);
    if rs.len() == 2 {
        a_member_is_found_under_its_name(rs, 1);
    }
}

} // verus!
