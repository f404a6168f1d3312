//! What `pudu vendor` fetches and records.
//!
//! Vendors the union of packages that survive pruning on at least one configured
//! platform.

use vstd::prelude::*;

use crate::config::{Platform, RegistryConfig, RegistryModel};
use crate::dict::{
    as_map, has_key, key_index, key_index_is, keys_increase, lookup, lookup_is_map, names_increase,
    Dict, Duplicate, NameSet,
};
use crate::error::{
    Failure, PlatformWarning, VendorError, VendorErrorModel, VendorWarning, VendorWarningModel,
};
use crate::fetch::{Outcome, Request, RequestModel, Stats};
use crate::lock::graph::{graph_of, Graph, Node, NodeModel};
use crate::lock::types::{Lockfile, Resolution, ResolutionModel, Table};
use crate::packages::{
    difference, differences, recorded, staleness, Entry, EntryModel, Expected, ExpectedModel,
    Loaded, PackageTable,
};
use crate::platform::prune::{matrix_of, prune, survivors_are_nodes, warnings_of, Matrix};
use crate::registry::{tarball_result, tarball_url};
use crate::tarball::{
    hex_text, recorded_digest, sha256, sha512, verdict, MemberModel, Verified, VerifiedModel,
};
use crate::text::{decimal, decimal_text, same};

verus! {

/// Everything the download pass needs.
#[derive(Debug, PartialEq)]
pub struct Plan {
    pub expected: Dict<Expected>,
    pub requests: Dict<Request>,
    /// `hasBin` as the lockfile records it, for the cross-check.
    pub has_bin: Dict<bool>,
}

/// Where a package's bytes come from.
#[derive(Debug, PartialEq)]
pub enum Source {
    Fetch { url: String, integrity: String },
    /// Not from anywhere that can be verified: the package, and why.
    Unsupported { package: String },
}

/// The mathematical value of a [`Source`].
pub enum SourceModel {
    Fetch { url: Seq<char>, integrity: Seq<char> },
    Unsupported { package: Seq<char> },
}

impl DeepView for Source {
    type V = SourceModel;

    open spec fn deep_view(&self) -> SourceModel {
        match self {
            Source::Fetch { url, integrity } => SourceModel::Fetch {
                url: url@,
                integrity: integrity@,
            },
            Source::Unsupported { package } => SourceModel::Unsupported { package: package@ },
        }
    }
}

// --- What is planned ----------------------------------------------------------------

/// Where a package's bytes come from, given the address that its registry would
/// serve it at: there where the lockfile records a mere hash, at the recorded
/// address where it records one with a hash.
pub open spec fn source_of(
    key: Seq<char>,
    resolution: ResolutionModel,
    derived: Result<Seq<char>, VendorErrorModel>,
) -> Result<SourceModel, VendorErrorModel> {
    match resolution {
        ResolutionModel::Integrity { integrity } => match derived {
            Ok(url) => Ok(SourceModel::Fetch { url, integrity }),
            Err(e) => Err(e),
        },
        ResolutionModel::Tarball { tarball, integrity } => match integrity {
            Some(integrity) => Ok(SourceModel::Fetch { url: tarball, integrity }),
            None => Ok(SourceModel::Unsupported { package: key + " (url, no integrity)"@ }),
        },
        ResolutionModel::Git { repo, commit } => Ok(
            SourceModel::Unsupported { package: key + " (git)"@ },
        ),
        ResolutionModel::Directory { directory, kind } => Ok(
            SourceModel::Unsupported { package: key + " (directory)"@ },
        ),
    }
}

/// A package's key in the package table.
pub open spec fn package_key(node: NodeModel) -> Seq<char> {
    node.name + "@"@ + node.version
}

/// Where a node's bytes come from.
pub open spec fn node_source(node: NodeModel, registry: RegistryModel) -> Result<
    SourceModel,
    VendorErrorModel,
> {
    source_of(
        package_key(node),
        node.meta.resolution,
        tarball_result(node.name, node.version, registry),
    )
}

/// What is planned for one package.
pub struct ItemModel {
    pub request: RequestModel,
    pub has_bin: bool,
}

/// What is planned, and what cannot be.
pub struct PlanModel {
    pub items: Map<Seq<char>, ItemModel>,
    pub unsupported: Set<Seq<char>>,
}

/// The plan after one more instance. Instances of one package share a tarball, so
/// the first to be planned settles it.
pub open spec fn plan_step(before: PlanModel, node: NodeModel, registry: RegistryModel) -> Result<
    PlanModel,
    VendorErrorModel,
> {
    let key = package_key(node);
    if before.items.contains_key(key) {
        Ok(before)
    } else {
        match node_source(node, registry) {
            Err(e) => Err(e),
            Ok(SourceModel::Fetch { url, integrity }) => Ok(
                PlanModel {
                    items: before.items.insert(
                        key,
                        ItemModel {
                            request: RequestModel { key, name: node.name, url, integrity },
                            has_bin: node.meta.has_bin,
                        },
                    ),
                    ..before
                },
            ),
            Ok(SourceModel::Unsupported { package }) => Ok(
                PlanModel { unsupported: before.unsupported.insert(package), ..before },
            ),
        }
    }
}

/// The plan after the first `n` surviving instances.
pub open spec fn plan_after(
    nodes: Table<NodeModel>,
    surviving: Table<Seq<Seq<char>>>,
    registry: RegistryModel,
    n: int,
) -> Result<PlanModel, VendorErrorModel>
    decreases n,
{
    if n <= 0 {
        Ok(PlanModel { items: Map::empty(), unsupported: Set::empty() })
    } else {
        match plan_after(nodes, surviving, registry, n - 1) {
            Err(e) => Err(e),
            Ok(before) => plan_step(
                before,
                lookup(nodes, surviving[n - 1].0)->Some_0,
                registry,
            ),
        }
    }
}

/// A plan holds exactly these items: under each key what is expected, what is
/// requested and the lockfile's flag.
pub open spec fn plan_holds(plan: Plan, items: Map<Seq<char>, ItemModel>) -> bool {
    &&& forall|k: Seq<char>|
        {
            &&& #[trigger] lookup(plan.requests.deep_view(), k) == (if items.contains_key(k) {
                Some(items[k].request)
            } else {
                None
            })
            &&& lookup(plan.expected.deep_view(), k) == (if items.contains_key(k) {
                Some(
                    ExpectedModel {
                        url: items[k].request.url,
                        sha512: items[k].request.integrity,
                    },
                )
            } else {
                None
            })
            &&& lookup(plan.has_bin.deep_view(), k) == (if items.contains_key(k) {
                Some(items[k].has_bin)
            } else {
                None
            })
        }
}

// --- Planning ---------------------------------------------------------------------------

/// Decides where a package's bytes come from, given the address that its registry
/// would serve it at.
pub fn choose_source(key: &str, resolution: &Resolution, derived: Result<String, VendorError>) -> (r:
    Result<Source, VendorError>)
    ensures
        match (
            source_of(
                key@,
                resolution.deep_view(),
                match derived {
                    Ok(url) => Ok(url@),
                    Err(e) => Err(e.deep_view()),
                },
            ),
            r,
        ) {
            (Ok(m), Ok(s)) => s.deep_view() == m,
            (Err(m), Err(e)) => e.deep_view() == m,
            _ => false,
        },
{
    let why = match resolution {
        Resolution::Integrity { integrity } => {
            return match derived {
                Ok(url) => Ok(Source::Fetch { url, integrity: integrity.clone() }),
                Err(e) => Err(e),
            };
        },
        Resolution::Tarball { tarball, integrity } => match integrity {
            Some(i) => {
                return Ok(Source::Fetch { url: tarball.clone(), integrity: i.clone() });
            },
            None => " (url, no integrity)",
        },
        Resolution::Git { repo, commit } => " (git)",
        Resolution::Directory { directory, kind } => " (directory)",
    };
    let mut package = key.to_owned();
    package.append(why);
    Ok(Source::Unsupported { package })
}

fn plan_one(plan: &mut Plan, unsupported: &mut NameSet, node: &Node, registry: &RegistryConfig, Ghost(
    before,
): Ghost<PlanModel>) -> (r: Result<(), VendorError>)
    requires
        plan_holds(*old(plan), before.items),
        old(unsupported).deep_view().to_set() == before.unsupported,
        names_increase(old(unsupported).deep_view()),
    ensures
        match (plan_step(before, node.deep_view(), registry.deep_view()), r) {
            (Ok(after), Ok(_)) => {
                &&& plan_holds(*final(plan), after.items)
                &&& final(unsupported).deep_view().to_set() == after.unsupported
                &&& names_increase(final(unsupported).deep_view())
            },
            (Err(m), Err(e)) => e.deep_view() == m,
            _ => false,
        },
{
    let mut key = node.name.clone();
    key.append("@");
    key.append(node.version.as_str());
    assert(key@ == package_key(node.deep_view()));
    assert(lookup(plan.requests.deep_view(), key@) is Some <==> before.items.contains_key(key@));
    if plan.expected.contains_key(key.as_str()) {
        return Ok(());
    }
    let derived = match tarball_url(node.name.as_str(), node.version.as_str(), registry) {
        Ok(u) => Ok(u.as_str().to_owned()),
        Err(e) => Err(e),
    };
    let (url, integrity) = match choose_source(key.as_str(), &node.meta.resolution, derived) {
        Err(e) => {
            return Err(e);
        },
        Ok(Source::Unsupported { package }) => {
            unsupported.insert(package);
            return Ok(());
        },
        Ok(Source::Fetch { url, integrity }) => (url, integrity),
    };
    let ghost e0 = plan.expected.deep_view();
    let ghost r0 = plan.requests.deep_view();
    let ghost h0 = plan.has_bin.deep_view();
    let ghost item = ItemModel {
        request: RequestModel { key: key@, name: node.name@, url: url@, integrity: integrity@ },
        has_bin: node.meta.has_bin,
    };
    let ghost k0 = key@;
    plan.expected.insert(key.clone(), Expected { url: url.clone(), sha512: integrity.clone() });
    plan.has_bin.insert(key.clone(), node.meta.has_bin);
    plan.requests.insert(
        key.clone(),
        Request { key, name: node.name.clone(), url, integrity },
    );
    proof {
        let items = before.items.insert(k0, item);
        assert forall|k: Seq<char>|
            {
                &&& #[trigger] lookup(plan.requests.deep_view(), k) == (if items.contains_key(k) {
                    Some(items[k].request)
                } else {
                    None
                })
                &&& lookup(plan.expected.deep_view(), k) == (if items.contains_key(k) {
                    Some(
                        ExpectedModel {
                            url: items[k].request.url,
                            sha512: items[k].request.integrity,
                        },
                    )
                } else {
                    None
                })
                &&& lookup(plan.has_bin.deep_view(), k) == (if items.contains_key(k) {
                    Some(items[k].has_bin)
                } else {
                    None
                })
            } by {
            lookup_is_map(e0, k);
            lookup_is_map(r0, k);
            lookup_is_map(h0, k);
            lookup_is_map(plan.expected.deep_view(), k);
            lookup_is_map(plan.requests.deep_view(), k);
            lookup_is_map(plan.has_bin.deep_view(), k);
            assert(lookup(r0, k) == lookup(r0, k));
        }
    }
    Ok(())
}

/// Resolve every surviving package to a URL and an integrity.
///
/// What cannot be verified is reported together, so that all of it is learnt of in
/// one run.
pub fn build_plan(graph: &Graph, matrix: &Matrix, registry: &RegistryConfig) -> (r: Result<
    Plan,
    VendorError,
>)
    requires
        forall|i: int|
            0 <= i < matrix.deep_view().platforms_by_node.len() ==> has_key(
                graph.deep_view().nodes,
                (#[trigger] matrix.deep_view().platforms_by_node[i]).0,
            ),
    ensures
        match (
            plan_after(
                graph.deep_view().nodes,
                matrix.deep_view().platforms_by_node,
                registry.deep_view(),
                matrix.deep_view().platforms_by_node.len() as int,
            ),
            r,
        ) {
            (Ok(m), Ok(plan)) => m.unsupported.is_empty() && plan_holds(plan, m.items),
            (Ok(m), Err(e)) => {
                &&& !m.unsupported.is_empty()
                &&& e.deep_view() is UnsupportedResolution
                &&& names_increase(e.deep_view()->packages)
                &&& e.deep_view()->packages.to_set() == m.unsupported
            },
            (Err(m), Err(e)) => e.deep_view() == m,
            _ => false,
        },
{
    let ghost nodes = graph.deep_view().nodes;
    let ghost surviving = matrix.deep_view().platforms_by_node;
    let ghost reg = registry.deep_view();
    let mut plan = Plan { expected: Dict::new(), requests: Dict::new(), has_bin: Dict::new() };
    // Sorted, so the reported list is stable from run to run.
    let mut unsupported = NameSet::new();
    let mut i: usize = 0;
    let ghost mut state = PlanModel { items: Map::empty(), unsupported: Set::empty() };
    proof {
        assert(unsupported.deep_view().to_set() =~= Set::<Seq<char>>::empty());
    }
    while i < matrix.platforms_by_node.len()
        invariant
            nodes == graph.deep_view().nodes,
            surviving == matrix.deep_view().platforms_by_node,
            reg == registry.deep_view(),
            forall|k: int| 0 <= k < surviving.len() ==> has_key(nodes, (#[trigger] surviving[k]).0),
            i <= surviving.len(),
            plan_after(nodes, surviving, reg, i as int) == Ok::<PlanModel, VendorErrorModel>(state),
            plan_holds(plan, state.items),
            unsupported.deep_view().to_set() == state.unsupported,
            names_increase(unsupported.deep_view()),
        decreases surviving.len() - i,
    {
        let snapshot_key = matrix.platforms_by_node.key(i);
        assert(surviving[i as int].0 == snapshot_key@);
        let node = graph.nodes.get(snapshot_key).unwrap();
        assert(lookup(nodes, surviving[i as int].0) == Some(node.deep_view()));
        assert(plan_after(nodes, surviving, reg, i + 1) == plan_step(state, node.deep_view(), reg));
        match plan_one(&mut plan, &mut unsupported, node, registry, Ghost(state)) {
            Ok(_) => {},
            Err(e) => {
                proof {
                    plan_fails(nodes, surviving, reg, i + 1, surviving.len() as int);
                }
                return Err(e);
            },
        }
        proof {
            state = plan_after(nodes, surviving, reg, i + 1)->Ok_0;
        }
        i += 1;
    }
    let ghost names = unsupported.deep_view();
    if !unsupported.is_empty() {
        proof {
            assert(names.to_set().contains(names[0]));
        }
        return Err(VendorError::UnsupportedResolution { packages: unsupported.to_list() });
    }
    proof {
        assert(names.to_set() =~= Set::empty());
    }
    Ok(plan)
}

proof fn plan_fails(
    nodes: Table<NodeModel>,
    surviving: Table<Seq<Seq<char>>>,
    registry: RegistryModel,
    n: int,
    m: int,
)
    requires
        0 <= n <= m,
        plan_after(nodes, surviving, registry, n) is Err,
    ensures
        plan_after(nodes, surviving, registry, m) == plan_after(nodes, surviving, registry, n),
    decreases m - n,
{
    if n < m {
        plan_fails(nodes, surviving, registry, n, m - 1);
    }
}

// --- Recording ----------------------------------------------------------------------------

/// What is recorded of a package already reflects a request: the same address and
/// the same hash. A package can move registries without its hash changing, and the
/// same address can come to hold other bytes.
pub open spec fn reflects(existing: Option<EntryModel>, req: RequestModel) -> bool {
    existing is Some && existing->Some_0.url == req.url && existing->Some_0.sha512 == req.integrity
}

/// Whether an existing entry already reflects `req`, so no fetch is needed.
pub fn is_carried_over(existing: Option<&Entry>, req: &Request) -> (r: bool)
    ensures
        r == reflects(
            match existing {
                Some(e) => Some(e.deep_view()),
                None => None,
            },
            req.deep_view(),
        ),
{
    match existing {
        Some(e) => same(e.url.as_str(), req.url.as_str()) && same(
            e.sha512.as_str(),
            req.integrity.as_str(),
        ),
        None => false,
    }
}

/// The requests among the first `n` that have to be made.
pub open spec fn to_fetch(requests: Table<RequestModel>, existing: Table<EntryModel>, n: int) -> Seq<
    RequestModel,
>
    decreases n,
{
    if n <= 0 {
        Seq::empty()
    } else {
        let before = to_fetch(requests, existing, n - 1);
        if reflects(lookup(existing, requests[n - 1].0), requests[n - 1].1) {
            before
        } else {
            before.push(requests[n - 1].1)
        }
    }
}

/// The entries that the first `n` requests carry over.
pub open spec fn carried(requests: Table<RequestModel>, existing: Table<EntryModel>, n: int) -> Map<
    Seq<char>,
    EntryModel,
>
    decreases n,
{
    if n <= 0 {
        Map::empty()
    } else {
        let before = carried(requests, existing, n - 1);
        if reflects(lookup(existing, requests[n - 1].0), requests[n - 1].1) {
            before.insert(requests[n - 1].0, lookup(existing, requests[n - 1].0)->Some_0)
        } else {
            before
        }
    }
}

/// Carries over what is already recorded at the same address and hash, and says
/// what is left to fetch.
pub fn split_requests(requests: &Dict<Request>, existing: &Dict<Entry>) -> (r: (
    Dict<Entry>,
    Vec<Request>,
))
    ensures
        as_map(r.0.deep_view()) == carried(
            requests.deep_view(),
            existing.deep_view(),
            requests.deep_view().len() as int,
        ),
        r.1.deep_view() == to_fetch(
            requests.deep_view(),
            existing.deep_view(),
            requests.deep_view().len() as int,
        ),
{
    let ghost rs = requests.deep_view();
    let ghost es = existing.deep_view();
    let mut entries: Dict<Entry> = Dict::new();
    let mut todo: Vec<Request> = Vec::new();
    let mut i: usize = 0;
    assert(as_map(entries.deep_view()) =~= carried(rs, es, 0));
    assert(todo.deep_view() =~= to_fetch(rs, es, 0));
    while i < requests.len()
        invariant
            rs == requests.deep_view(),
            es == existing.deep_view(),
            i <= rs.len(),
            as_map(entries.deep_view()) == carried(rs, es, i as int),
            todo.deep_view() == to_fetch(rs, es, i as int),
        decreases rs.len() - i,
    {
        let key = requests.key(i);
        let req = requests.value(i);
        assert(rs[i as int] == (key@, req.deep_view()));
        let ghost prior = todo.deep_view();
        let found = existing.get(key);
        if is_carried_over(found, req) {
            entries.insert(key.clone(), found.unwrap().duplicate());
        } else {
            todo.push(req.duplicate());
            assert(todo.deep_view() =~= prior.push(req.deep_view()));
        }
        i += 1;
    }
    (entries, todo)
}

/// What is recorded of a package that was fetched and verified.
pub open spec fn entry_of(want: ExpectedModel, verified: VerifiedModel) -> EntryModel {
    EntryModel {
        url: want.url,
        sha512: want.sha512,
        sha256: verified.sha256,
        size: verified.size,
        root: verified.inspection.root,
        bin: verified.inspection.bin,
        has_install_script: verified.inspection.has_install_script,
    }
}

/// Records a package that was fetched and verified.
pub fn make_entry(want: &Expected, verified: Verified) -> (r: Entry)
    ensures
        r.deep_view() == entry_of(want.deep_view(), verified.deep_view()),
{
    Entry {
        url: want.url.clone(),
        sha512: want.sha512.clone(),
        sha256: verified.sha256,
        size: verified.size,
        root: verified.inspection.root,
        bin: verified.inspection.bin,
        has_install_script: verified.inspection.has_install_script,
    }
}

/// The warning where the lockfile's flag and the tarball disagree on whether a
/// package has commands.
pub open spec fn flag_warning(key: Seq<char>, lockfile: bool, found: int) -> Option<
    VendorWarningModel,
> {
    if lockfile != (found > 0) {
        Some(VendorWarningModel::HasBinDisagreement { key, lockfile, found })
    } else {
        None
    }
}

/// Cross-checks the lockfile's flag for commands. The archive is what counts.
pub fn has_bin_warning(key: &str, lockfile: bool, found: usize) -> (r: Option<VendorWarning>)
    ensures
        match r {
            Some(w) => flag_warning(key@, lockfile, found as int) == Some(w.deep_view()),
            None => flag_warning(key@, lockfile, found as int) is None,
        },
{
    if lockfile != (found > 0) {
        Some(VendorWarning::HasBinDisagreement { key: key.to_owned(), lockfile, found })
    } else {
        None
    }
}

/// What fetching one package came to.
pub open spec fn outcome_model(outcome: Outcome) -> Result<
    (VerifiedModel, Seq<VendorWarningModel>),
    VendorErrorModel,
> {
    match outcome {
        Ok((verified, warnings)) => Ok((verified.deep_view(), warnings.deep_view())),
        Err(e) => Err(e.deep_view()),
    }
}

/// What a download pass has come to.
#[derive(Debug, PartialEq)]
pub struct Collected {
    pub entries: Dict<Entry>,
    pub warnings: Vec<VendorWarning>,
    /// In the order of the packages that failed.
    pub failures: Vec<VendorError>,
}

/// The mathematical value of a [`Collected`].
pub struct CollectedModel {
    pub entries: Map<Seq<char>, EntryModel>,
    pub warnings: Seq<VendorWarningModel>,
    pub failures: Seq<VendorErrorModel>,
}

/// What one more package adds: its entry and warnings, or its failure.
pub open spec fn collect_step(
    before: CollectedModel,
    key: Seq<char>,
    outcome: Result<(VerifiedModel, Seq<VendorWarningModel>), VendorErrorModel>,
    want: ExpectedModel,
    has_bin: bool,
) -> CollectedModel {
    match outcome {
        Err(e) => CollectedModel { failures: before.failures.push(e), ..before },
        Ok((verified, warnings)) => CollectedModel {
            entries: before.entries.insert(key, entry_of(want, verified)),
            warnings: before.warnings + warnings + match flag_warning(
                key,
                has_bin,
                verified.inspection.bin.len() as int,
            ) {
                Some(w) => seq![w],
                None => Seq::empty(),
            },
            ..before
        },
    }
}

/// What the first `n` packages come to.
pub open spec fn collected_after(
    carried: Map<Seq<char>, EntryModel>,
    results: Seq<(String, Outcome)>,
    expected: Table<ExpectedModel>,
    has_bin: Table<bool>,
    n: int,
) -> CollectedModel
    decreases n,
{
    if n <= 0 {
        CollectedModel { entries: carried, warnings: Seq::empty(), failures: Seq::empty() }
    } else {
        let (key, outcome) = results[n - 1];
        collect_step(
            collected_after(carried, results, expected, has_bin, n - 1),
            key@,
            outcome_model(outcome),
            lookup(expected, key@)->Some_0,
            lookup(has_bin, key@)->Some_0,
        )
    }
}

/// Collects what a download pass came to, package by package, behind the entries
/// that were carried over.
pub fn collect(entries: Dict<Entry>, results: Vec<(String, Outcome)>, plan: &Plan) -> (r: Collected)
    requires
        forall|i: int|
            0 <= i < results@.len() ==> has_key(
                plan.expected.deep_view(),
                (#[trigger] results@[i]).0@,
            ) && has_key(plan.has_bin.deep_view(), results@[i].0@),
    ensures
        ({
            let m = collected_after(
                as_map(entries.deep_view()),
                results@,
                plan.expected.deep_view(),
                plan.has_bin.deep_view(),
                results@.len() as int,
            );
            &&& as_map(r.entries.deep_view()) == m.entries
            &&& r.warnings.deep_view() == m.warnings
            &&& r.failures.deep_view() == m.failures
        }),
{
    let ghost carried = as_map(entries.deep_view());
    let ghost all = results@;
    let ghost es = plan.expected.deep_view();
    let ghost hs = plan.has_bin.deep_view();
    let mut out = Collected { entries, warnings: Vec::new(), failures: Vec::new() };
    let mut left = results;
    let ghost mut n: int = 0;
    assert(out.warnings.deep_view() =~= Seq::<VendorWarningModel>::empty());
    assert(out.failures.deep_view() =~= Seq::<VendorErrorModel>::empty());
    assert(all.skip(0) =~= all);
    while left.len() > 0
        invariant
            es == plan.expected.deep_view(),
            hs == plan.has_bin.deep_view(),
            forall|i: int|
                0 <= i < all.len() ==> has_key(es, (#[trigger] all[i]).0@) && has_key(
                    hs,
                    all[i].0@,
                ),
            0 <= n <= all.len(),
            left@ == all.skip(n),
            as_map(out.entries.deep_view()) == collected_after(carried, all, es, hs, n).entries,
            out.warnings.deep_view() == collected_after(carried, all, es, hs, n).warnings,
            out.failures.deep_view() == collected_after(carried, all, es, hs, n).failures,
        decreases left.len(),
    {
        let ghost before = collected_after(carried, all, es, hs, n);
        let (key, outcome) = left.remove(0);
        proof {
            assert(all[n] == (key, outcome));
            assert(left@ =~= all.skip(n + 1));
            n = n + 1;
        }
        match outcome {
            Err(e) => {
                let ghost m = e.deep_view();
                out.failures.push(e);
                assert(out.failures.deep_view() =~= before.failures.push(m));
            },
            Ok((verified, warnings)) => {
                let want = plan.expected.get(key.as_str()).unwrap();
                let flag = *plan.has_bin.get(key.as_str()).unwrap();
                let found: usize = verified.inspection.bin.len();
                let ghost ws = warnings.deep_view();
                let mut warnings = warnings;
                out.warnings.append(&mut warnings);
                assert(out.warnings.deep_view() =~= before.warnings + ws);
                if let Some(w) = has_bin_warning(key.as_str(), flag, found) {
                    let ghost m = w.deep_view();
                    out.warnings.push(w);
                    assert(out.warnings.deep_view() =~= before.warnings + ws + seq![m]);
                } else {
                    assert(out.warnings.deep_view() =~= before.warnings + ws + Seq::empty());
                }
                let entry = make_entry(want, verified);
                out.entries.insert(key, entry);
            },
        }
    }
    out
}

/// A lockfile taken all the way to a plan.
#[derive(Debug, PartialEq)]
pub struct Prepared {
    pub graph: Graph,
    pub matrix: Matrix,
    pub warnings: Vec<PlatformWarning>,
    pub plan: Plan,
}

/// Takes a lockfile all the way to a plan: builds its graph, prunes it for the
/// configured platforms, and resolves what survives.
pub fn prepare(lockfile: &Lockfile, platforms: &Dict<Platform>, registry: &RegistryConfig) -> (r:
    Result<Prepared, Failure>)
    ensures
        match graph_of(lockfile.deep_view()) {
            Err(m) => r is Err && r->Err_0 is Lock && r->Err_0->Lock_0.deep_view() == m,
            Ok(g) => {
                let matrix = matrix_of(g.nodes, platforms.deep_view());
                match (
                    plan_after(
                        g.nodes,
                        matrix.platforms_by_node,
                        registry.deep_view(),
                        matrix.platforms_by_node.len() as int,
                    ),
                    r,
                ) {
                    (Ok(m), Ok(p)) => {
                        &&& m.unsupported.is_empty()
                        &&& p.graph.deep_view() == g
                        &&& p.matrix.deep_view() == matrix
                        &&& p.warnings.deep_view() == warnings_of(g.nodes, platforms.deep_view())
                        &&& plan_holds(p.plan, m.items)
                    },
                    (Ok(m), Err(e)) => {
                        &&& !m.unsupported.is_empty()
                        &&& e is Vendor
                        &&& e->Vendor_0.deep_view() is UnsupportedResolution
                        &&& names_increase(e->Vendor_0.deep_view()->packages)
                        &&& e->Vendor_0.deep_view()->packages.to_set() == m.unsupported
                    },
                    (Err(m), Err(e)) => e is Vendor && e->Vendor_0.deep_view() == m,
                    _ => false,
                }
            },
        },
{
    let graph = match Graph::build(lockfile) {
        Ok(g) => g,
        Err(e) => {
            return Err(Failure::Lock(e));
        },
    };
    let (matrix, warnings) = prune(&graph, platforms);
    proof {
        let nodes = graph.deep_view().nodes;
        let ps = platforms.deep_view();
        assert forall|i: int| 0 <= i < matrix.deep_view().platforms_by_node.len() implies has_key(
            nodes,
            (#[trigger] matrix.deep_view().platforms_by_node[i]).0,
        ) by {
            survivors_are_nodes(nodes, ps, i);
        }
    }
    match build_plan(&graph, &matrix, registry) {
        Ok(plan) => Ok(Prepared { graph, matrix, warnings, plan }),
        Err(e) => Err(Failure::Vendor(e)),
    }
}

/// Why a download pass failed: the failure that is reported last and decides the exit
/// code, and the others.
#[derive(Debug, PartialEq)]
pub struct Failures {
    pub first: VendorError,
    pub rest: Vec<VendorError>,
}

/// The table that a download pass leaves, unless a package failed.
pub fn conclude(collected: Collected) -> (r: Result<PackageTable, Failures>)
    ensures
        match r {
            Ok(table) => collected.failures.len() == 0 && table.entries == collected.entries,
            Err(f) => collected.failures.deep_view() == seq![f.first.deep_view()]
                + f.rest.deep_view(),
        },
{
    let mut failures = collected.failures;
    if failures.len() == 0 {
        return Ok(PackageTable { entries: collected.entries });
    }
    let first = failures.remove(0);
    assert(collected.failures.deep_view() =~= seq![first.deep_view()] + failures.deep_view());
    Err(Failures { first, rest: failures })
}

/// Announces the failures that are reported ahead of the first, if there are several.
pub fn failed_line(failures: usize) -> (r: Option<String>)
    ensures
        match r {
            Some(line) => failures > 1 && line@ == decimal_text(failures as nat)
                + " packages failed; the first is reported at the end, the rest follow:"@,
            None => failures <= 1,
        },
{
    if failures <= 1 {
        return None;
    }
    let mut out = decimal(failures as u64);
    out.append(" packages failed; the first is reported at the end, the rest follow:");
    Some(out)
}

/// Compares a plan with what the table records: they agree, or the table is out of
/// date, with every difference.
pub fn check_table(plan: &Plan, loaded: &Loaded) -> (r: Result<(), VendorError>)
    ensures
        ({
            let found = differences(
                plan.expected.deep_view(),
                recorded(*loaded),
                plan.expected.deep_view().len() as int,
            );
            match r {
                Ok(_) => found.len() == 0,
                Err(e) => found.len() > 0 && e.deep_view() == (VendorErrorModel::Stale {
                    differences: found,
                }),
            }
        }),
{
    let found = staleness(&plan.expected, loaded);
    if found.len() == 0 {
        Ok(())
    } else {
        Err(VendorError::Stale { differences: found })
    }
}

/// Says that the table is up to date.
pub fn up_to_date_line(packages: usize) -> (r: String)
    ensures
        r@ == "pudu.lock is up to date ("@ + decimal_text(packages as nat) + " packages)"@,
{
    let mut out = "pudu.lock is up to date (".to_owned();
    out.append(decimal(packages as u64).as_str());
    out.append(" packages)");
    out
}

/// Says how many packages are recorded, and how each was come by.
pub fn vendored_line(packages: usize, stats: &Stats, unchanged: usize) -> (r: String)
    ensures
        r@ == "vendored "@ + decimal_text(packages as nat) + " packages ("@ + decimal_text(
            stats.downloaded as nat,
        ) + " downloaded, "@ + decimal_text(stats.cached as nat) + " cached, "@ + decimal_text(
            unchanged as nat,
        ) + " unchanged)"@,
{
    let mut out = "vendored ".to_owned();
    out.append(decimal(packages as u64).as_str());
    out.append(" packages (");
    out.append(decimal(stats.downloaded as u64).as_str());
    out.append(" downloaded, ");
    out.append(decimal(stats.cached as u64).as_str());
    out.append(" cached, ");
    out.append(decimal(unchanged as u64).as_str());
    out.append(" unchanged)");
    out
}

// --- Laws -----------------------------------------------------------------------------------

/// A plan covers every surviving package: once nothing is unsupported, each has its
/// request.
pub proof fn plan_covers_survivors(
    nodes: Table<NodeModel>,
    surviving: Table<Seq<Seq<char>>>,
    registry: RegistryModel,
    n: int,
    i: int,
)
    requires
        0 <= i < n <= surviving.len(),
        plan_after(nodes, surviving, registry, n) is Ok,
        plan_after(nodes, surviving, registry, n)->Ok_0.unsupported.is_empty(),
    ensures
        plan_after(nodes, surviving, registry, n)->Ok_0.items.contains_key(
            package_key(lookup(nodes, surviving[i].0)->Some_0),
        ),
    decreases n,
{
    let before = plan_after(nodes, surviving, registry, n - 1)->Ok_0;
    let after = plan_after(nodes, surviving, registry, n)->Ok_0;
    let node = lookup(nodes, surviving[n - 1].0)->Some_0;
    if !before.items.contains_key(package_key(node)) {
        match node_source(node, registry) {
            Ok(SourceModel::Unsupported { package }) => {
                assert(after.unsupported.contains(package));
            },
            _ => {},
        }
    }
    assert(before.unsupported.subset_of(after.unsupported));
    assert(before.unsupported =~= Set::empty());
    if i < n - 1 {
        plan_covers_survivors(nodes, surviving, registry, n - 1, i);
    }
}

/// Nothing is both carried over and fetched again, and nothing is lost: a request
/// is either left to fetch or its entry is carried over, unchanged.
pub proof fn requests_are_carried_or_fetched(
    requests: Table<RequestModel>,
    existing: Table<EntryModel>,
    n: int,
    i: int,
)
    requires
        keys_increase(requests),
        0 <= i < n <= requests.len(),
    ensures
        carried(requests, existing, n).contains_key(requests[i].0) <==> reflects(
            lookup(existing, requests[i].0),
            requests[i].1,
        ),
        carried(requests, existing, n).contains_key(requests[i].0) ==> carried(
            requests,
            existing,
            n,
        )[requests[i].0] == lookup(existing, requests[i].0)->Some_0,
        !carried(requests, existing, n).contains_key(requests[i].0) ==> to_fetch(
            requests,
            existing,
            n,
        ).contains(requests[i].1),
    decreases n,
{
    let before = to_fetch(requests, existing, n - 1);
    let now = to_fetch(requests, existing, n);
    if i < n - 1 {
        requests_are_carried_or_fetched(requests, existing, n - 1, i);
        crate::dict::key_index_is(requests, i);
        crate::dict::key_index_is(requests, n - 1);
        if before.contains(requests[i].1) {
            let k = before.index_of(requests[i].1);
            assert(now[k] == requests[i].1);
        }
    } else {
        carried_comes_from_earlier(requests, existing, n - 1, requests[i].0);
        if carried(requests, existing, n - 1).contains_key(requests[i].0) {
            let k = choose|k: int| 0 <= k < n - 1 && (#[trigger] requests[k]).0 == requests[i].0;
            crate::dict::key_index_is(requests, k);
            crate::dict::key_index_is(requests, i);
        }
        if !reflects(lookup(existing, requests[i].0), requests[i].1) {
            assert(now[now.len() - 1] == requests[i].1);
        }
    }
}

proof fn carried_comes_from_earlier(
    requests: Table<RequestModel>,
    existing: Table<EntryModel>,
    n: int,
    key: Seq<char>,
)
    requires
        0 <= n <= requests.len(),
    ensures
        carried(requests, existing, n).contains_key(key) ==> exists|k: int|
            0 <= k < n && (#[trigger] requests[k]).0 == key,
    decreases n,
{
    if n > 0 {
        carried_comes_from_earlier(requests, existing, n - 1, key);
        if requests[n - 1].0 == key {
            assert(requests[n - 1].0 == key);
        }
    }
}

/// The hashes that are recorded of a package belong to one archive: the bytes whose
/// SHA-256 is recorded are those that have the SHA-512 of the lockfile.
pub proof fn recorded_hashes_belong_together(
    want: ExpectedModel,
    key: Seq<char>,
    bytes: Seq<u8>,
    members: Seq<MemberModel>,
    verified: VerifiedModel,
)
    requires
        verdict(key, want.url, bytes, members, want.sha512) is Ok,
        verified.sha256 == hex_text(sha256(bytes)),
    ensures
        entry_of(want, verified).sha256 == hex_text(sha256(bytes)),
        recorded_digest(entry_of(want, verified).sha512) == Some(sha512(bytes)),
{
}

proof fn requests_name_themselves(
    nodes: Table<NodeModel>,
    surviving: Table<Seq<Seq<char>>>,
    registry: RegistryModel,
    n: int,
    k: Seq<char>,
)
    requires
        plan_after(nodes, surviving, registry, n) is Ok,
        plan_after(nodes, surviving, registry, n)->Ok_0.items.contains_key(k),
    ensures
        plan_after(nodes, surviving, registry, n)->Ok_0.items[k].request.key == k,
    decreases n,
{
    if n > 0 {
        let before = plan_after(nodes, surviving, registry, n - 1)->Ok_0;
        if before.items.contains_key(k) {
            requests_name_themselves(nodes, surviving, registry, n - 1, k);
        }
    }
}

/// An entry records what is expected under its key.
spec fn records(entries: Map<Seq<char>, EntryModel>, expected: Table<ExpectedModel>, k: Seq<
    char,
>) -> bool {
    entries.contains_key(k) && lookup(expected, k) is Some ==> entries[k].url == lookup(
        expected,
        k,
    )->Some_0.url && entries[k].sha512 == lookup(expected, k)->Some_0.sha512
}

proof fn carried_entries_record(
    plan: Plan,
    items: Map<Seq<char>, ItemModel>,
    existing: Table<EntryModel>,
    n: int,
    k: Seq<char>,
)
    requires
        plan_holds(plan, items),
        keys_increase(plan.requests.deep_view()),
        0 <= n <= plan.requests.deep_view().len(),
    ensures
        records(
            carried(plan.requests.deep_view(), existing, n),
            plan.expected.deep_view(),
            k,
        ),
    decreases n,
{
    if n > 0 {
        let requests = plan.requests.deep_view();
        carried_entries_record(plan, items, existing, n - 1, k);
        let (key, req) = requests[n - 1];
        key_index_is(requests, n - 1);
        assert(lookup(requests, key) == Some(req));
        assert(items.contains_key(key));
    }
}

proof fn collected_entries_record(
    carried: Map<Seq<char>, EntryModel>,
    results: Seq<(String, Outcome)>,
    expected: Table<ExpectedModel>,
    has_bin: Table<bool>,
    n: int,
    k: Seq<char>,
)
    requires
        records(carried, expected, k),
        0 <= n <= results.len(),
    ensures
        records(collected_after(carried, results, expected, has_bin, n).entries, expected, k),
        carried.contains_key(k) ==> collected_after(
            carried,
            results,
            expected,
            has_bin,
            n,
        ).entries.contains_key(k),
    decreases n,
{
    if n > 0 {
        collected_entries_record(carried, results, expected, has_bin, n - 1, k);
    }
}

proof fn success_is_recorded(
    carried: Map<Seq<char>, EntryModel>,
    results: Seq<(String, Outcome)>,
    expected: Table<ExpectedModel>,
    has_bin: Table<bool>,
    n: int,
    j: int,
)
    requires
        0 <= j < n <= results.len(),
        collected_after(carried, results, expected, has_bin, n).failures.len() == 0,
    ensures
        collected_after(carried, results, expected, has_bin, n).entries.contains_key(
            results[j].0@,
        ),
    decreases n,
{
    if j < n - 1 {
        success_is_recorded(carried, results, expected, has_bin, n - 1, j);
    }
}

proof fn entry_comes_from(
    carried: Map<Seq<char>, EntryModel>,
    results: Seq<(String, Outcome)>,
    expected: Table<ExpectedModel>,
    has_bin: Table<bool>,
    n: int,
    k: Seq<char>,
)
    requires
        0 <= n <= results.len(),
        collected_after(carried, results, expected, has_bin, n).entries.contains_key(k),
    ensures
        carried.contains_key(k) || exists|j: int|
            0 <= j < n && (#[trigger] results[j]).0@ == k,
    decreases n,
{
    if n > 0 {
        let before = collected_after(carried, results, expected, has_bin, n - 1);
        if before.entries.contains_key(k) {
            entry_comes_from(carried, results, expected, has_bin, n - 1, k);
        } else {
            assert(results[n - 1].0@ == k);
        }
    }
}

proof fn carried_entry_stays(
    carried: Map<Seq<char>, EntryModel>,
    results: Seq<(String, Outcome)>,
    expected: Table<ExpectedModel>,
    has_bin: Table<bool>,
    n: int,
    k: Seq<char>,
)
    requires
        0 <= n <= results.len(),
        carried.contains_key(k),
        forall|j: int| 0 <= j < results.len() ==> (#[trigger] results[j]).0@ != k,
    ensures
        collected_after(carried, results, expected, has_bin, n).entries.contains_key(k),
        collected_after(carried, results, expected, has_bin, n).entries[k] == carried[k],
    decreases n,
{
    if n > 0 {
        carried_entry_stays(carried, results, expected, has_bin, n - 1, k);
        assert(results[n - 1].0@ != k);
    }
}

proof fn carried_is_requested(
    requests: Table<RequestModel>,
    existing: Table<EntryModel>,
    n: int,
    k: Seq<char>,
)
    requires
        0 <= n <= requests.len(),
        carried(requests, existing, n).contains_key(k),
    ensures
        has_key(requests, k),
    decreases n,
{
    if n > 0 {
        if carried(requests, existing, n - 1).contains_key(k) {
            carried_is_requested(requests, existing, n - 1, k);
        } else {
            assert(requests[n - 1].0 == k);
        }
    }
}

proof fn fetched_is_requested(
    requests: Table<RequestModel>,
    existing: Table<EntryModel>,
    n: int,
    i: int,
) -> (p: int)
    requires
        0 <= n <= requests.len(),
        0 <= i < to_fetch(requests, existing, n).len(),
    ensures
        0 <= p < n,
        requests[p].1 == to_fetch(requests, existing, n)[i],
        !reflects(lookup(existing, requests[p].0), requests[p].1),
    decreases n,
{
    let before = to_fetch(requests, existing, n - 1);
    if i < before.len() {
        fetched_is_requested(requests, existing, n - 1, i)
    } else {
        n - 1
    }
}

proof fn no_differences(expected: Table<ExpectedModel>, entries: Table<EntryModel>, n: int)
    requires
        0 <= n <= expected.len(),
        forall|i: int|
            0 <= i < n ==> difference((#[trigger] expected[i]).0, expected[i].1, entries) is None,
    ensures
        differences(expected, entries, n).len() == 0,
    decreases n,
{
    if n > 0 {
        no_differences(expected, entries, n - 1);
        assert(difference(expected[n - 1].0, expected[n - 1].1, entries) is None);
    }
}

/// A run without failures leaves a table that is up to date: whatever was recorded
/// before, once every request is answered and nothing failed, a check of the table
/// against the plan finds no difference. The table then holds exactly what is planned,
/// and what was carried over stands there as it was.
pub proof fn a_complete_run_is_up_to_date(
    nodes: Table<NodeModel>,
    surviving: Table<Seq<Seq<char>>>,
    registry: RegistryModel,
    plan: Plan,
    existing: Table<EntryModel>,
    results: Seq<(String, Outcome)>,
    entries: Table<EntryModel>,
)
    requires
        plan_after(nodes, surviving, registry, surviving.len() as int) is Ok,
        plan_holds(
            plan,
            plan_after(nodes, surviving, registry, surviving.len() as int)->Ok_0.items,
        ),
        keys_increase(plan.requests.deep_view()),
        keys_increase(plan.expected.deep_view()),
        ({
            let requests = plan.requests.deep_view();
            let todo = to_fetch(requests, existing, requests.len() as int);
            let after = collected_after(
                carried(requests, existing, requests.len() as int),
                results,
                plan.expected.deep_view(),
                plan.has_bin.deep_view(),
                results.len() as int,
            );
            &&& forall|i: int|
                0 <= i < todo.len() ==> exists|j: int|
                    0 <= j < results.len() && (#[trigger] results[j]).0@ == (
                    #[trigger] todo[i]).key
            &&& forall|j: int|
                0 <= j < results.len() ==> exists|i: int|
                    0 <= i < todo.len() && (#[trigger] todo[i]).key == (#[trigger] results[j]).0@
            &&& after.failures.len() == 0
            &&& as_map(entries) == after.entries
        }),
    ensures
        differences(
            plan.expected.deep_view(),
            entries,
            plan.expected.deep_view().len() as int,
        ).len() == 0,
        forall|k: Seq<char>|
            #[trigger] has_key(entries, k) <==> has_key(plan.expected.deep_view(), k),
        forall|i: int|
            0 <= i < plan.requests.deep_view().len() && reflects(
                lookup(existing, (#[trigger] plan.requests.deep_view()[i]).0),
                plan.requests.deep_view()[i].1,
            ) ==> lookup(entries, plan.requests.deep_view()[i].0) == lookup(
                existing,
                plan.requests.deep_view()[i].0,
            ),
{
    let items = plan_after(nodes, surviving, registry, surviving.len() as int)->Ok_0.items;
    let requests = plan.requests.deep_view();
    let expected = plan.expected.deep_view();
    let has_bin = plan.has_bin.deep_view();
    let n = requests.len() as int;
    let kept = carried(requests, existing, n);
    let todo = to_fetch(requests, existing, n);
    let after = collected_after(kept, results, expected, has_bin, results.len() as int);
    assert forall|i: int| 0 <= i < expected.len() implies difference(
        (#[trigger] expected[i]).0,
        expected[i].1,
        entries,
    ) is None by {
        let k = expected[i].0;
        key_index_is(expected, i);
        assert(lookup(requests, k) == lookup(requests, k));
        assert(items.contains_key(k));
        let p = key_index(requests, k);
        assert(has_key(requests, k));
        assert(requests[p].0 == k);
        carried_entries_record(plan, items, existing, n, k);
        collected_entries_record(kept, results, expected, has_bin, results.len() as int, k);
        requests_are_carried_or_fetched(requests, existing, n, p);
        if !kept.contains_key(k) {
            let q = todo.index_of(requests[p].1);
            assert(todo[q] == requests[p].1);
            requests_name_themselves(nodes, surviving, registry, surviving.len() as int, k);
            let j = choose|j: int|
                0 <= j < results.len() && (#[trigger] results[j]).0@ == todo[q].key;
            success_is_recorded(kept, results, expected, has_bin, results.len() as int, j);
        }
        lookup_is_map(entries, k);
    }
    no_differences(expected, entries, expected.len() as int);
    assert forall|k: Seq<char>| #[trigger] has_key(entries, k) <==> has_key(expected, k) by {
        lookup_is_map(entries, k);
        assert(lookup(requests, k) == lookup(requests, k));
        if has_key(expected, k) {
            let i = key_index(expected, k);
            assert(difference(expected[i].0, expected[i].1, entries) is None);
        }
        if has_key(entries, k) {
            entry_comes_from(kept, results, expected, has_bin, results.len() as int, k);
            if kept.contains_key(k) {
                carried_is_requested(requests, existing, n, k);
            } else {
                let j = choose|j: int| 0 <= j < results.len() && (#[trigger] results[j]).0@ == k;
                let i = choose|i: int|
                    0 <= i < todo.len() && (#[trigger] todo[i]).key == results[j].0@;
                let p = fetched_is_requested(requests, existing, n, i);
                key_index_is(requests, p);
                assert(lookup(requests, requests[p].0) == Some(requests[p].1));
                requests_name_themselves(
                    nodes,
                    surviving,
                    registry,
                    surviving.len() as int,
                    requests[p].0,
                );
            }
        }
    }
    assert forall|i: int|
        0 <= i < requests.len() && reflects(
            lookup(existing, (#[trigger] requests[i]).0),
            requests[i].1,
        ) implies lookup(entries, requests[i].0) == lookup(existing, requests[i].0) by {
        let k = requests[i].0;
        requests_are_carried_or_fetched(requests, existing, n, i);
        assert forall|j: int| 0 <= j < results.len() implies (#[trigger] results[j]).0@ != k by {
            let q = choose|q: int| 0 <= q < todo.len() && (#[trigger] todo[q]).key == results[j].0@;
            let p = fetched_is_requested(requests, existing, n, q);
            key_index_is(requests, p);
            key_index_is(requests, i);
            assert(lookup(requests, requests[p].0) == Some(requests[p].1));
            requests_name_themselves(
                nodes,
                surviving,
                registry,
                surviving.len() as int,
                requests[p].0,
            );
        }
        carried_entry_stays(kept, results, expected, has_bin, results.len() as int, k);
        lookup_is_map(entries, k);
    }
}

/// The lockfile records no hash of a package's archive: it is a checkout, a directory
/// or an address without one.
pub open spec fn has_no_hash(resolution: ResolutionModel) -> bool {
    match resolution {
        ResolutionModel::Integrity { .. } => false,
        ResolutionModel::Tarball { integrity, .. } => integrity is None,
        ResolutionModel::Git { .. } => true,
        ResolutionModel::Directory { .. } => true,
    }
}

/// What is fetched for a node: the bytes with the hash that the lockfile records, from
/// the address that it records, or from the registry where it records none.
pub open spec fn is_request_of(
    request: RequestModel,
    node: NodeModel,
    registry: RegistryModel,
) -> bool {
    &&& request.key == node.name + seq!['@'] + node.version
    &&& request.name == node.name
    &&& node.meta.resolution is Integrity ==> request.integrity
        == node.meta.resolution->Integrity_integrity && tarball_result(
        node.name,
        node.version,
        registry,
    ) == Ok::<Seq<char>, VendorErrorModel>(request.url)
    &&& node.meta.resolution is Tarball ==> node.meta.resolution->Tarball_integrity == Some(
        request.integrity,
    ) && request.url == node.meta.resolution->tarball
    &&& !has_no_hash(node.meta.resolution)
}

/// Everything that is fetched is asked for by a surviving package, under the hash that
/// the lockfile records of it: nothing is ever fetched that cannot be verified.
pub proof fn only_what_can_be_verified_is_fetched(
    nodes: Table<NodeModel>,
    surviving: Table<Seq<Seq<char>>>,
    registry: RegistryModel,
    n: int,
    k: Seq<char>,
)
    requires
        0 <= n <= surviving.len(),
        plan_after(nodes, surviving, registry, n) is Ok,
        plan_after(nodes, surviving, registry, n)->Ok_0.items.contains_key(k),
    ensures
        exists|i: int|
            {
                let item = plan_after(nodes, surviving, registry, n)->Ok_0.items[k];
                let node = lookup(nodes, (#[trigger] surviving[i]).0)->Some_0;
                &&& 0 <= i < n
                &&& item.request.key == k
                &&& is_request_of(item.request, node, registry)
                &&& item.has_bin == node.meta.has_bin
            },
    decreases n,
{
    reveal_strlit("@");
    if n > 0 {
        let before = plan_after(nodes, surviving, registry, n - 1)->Ok_0;
        let node = lookup(nodes, surviving[n - 1].0)->Some_0;
        assert("@"@ =~= seq!['@']);
        if before.items.contains_key(k) {
            only_what_can_be_verified_is_fetched(nodes, surviving, registry, n - 1, k);
            let i = choose|i: int|
                {
                    let item = before.items[k];
                    let node = lookup(nodes, (#[trigger] surviving[i]).0)->Some_0;
                    &&& 0 <= i < n - 1
                    &&& item.request.key == k
                    &&& is_request_of(item.request, node, registry)
                    &&& item.has_bin == node.meta.has_bin
                };
            assert(surviving[i] == surviving[i]);
        } else {
            assert(surviving[n - 1] == surviving[n - 1]);
        }
    }
}

/// A package is refused where the lockfile records no hash of it, and only then; the
/// text that names it begins with its key.
pub proof fn only_what_has_no_hash_is_refused(
    nodes: Table<NodeModel>,
    surviving: Table<Seq<Seq<char>>>,
    registry: RegistryModel,
    n: int,
    text: Seq<char>,
)
    requires
        0 <= n <= surviving.len(),
        plan_after(nodes, surviving, registry, n) is Ok,
        plan_after(nodes, surviving, registry, n)->Ok_0.unsupported.contains(text),
    ensures
        exists|i: int|
            {
                let node = lookup(nodes, (#[trigger] surviving[i]).0)->Some_0;
                let key = node.name + seq!['@'] + node.version;
                &&& 0 <= i < n
                &&& has_no_hash(node.meta.resolution)
                &&& key.is_prefix_of(text)
                &&& text[key.len() as int] == ' '
            },
    decreases n,
{
    reveal_strlit("@");
    reveal_strlit(" (url, no integrity)");
    reveal_strlit(" (git)");
    reveal_strlit(" (directory)");
    if n > 0 {
        let before = plan_after(nodes, surviving, registry, n - 1)->Ok_0;
        let node = lookup(nodes, surviving[n - 1].0)->Some_0;
        assert("@"@ =~= seq!['@']);
        if before.unsupported.contains(text) {
            only_what_has_no_hash_is_refused(nodes, surviving, registry, n - 1, text);
            let i = choose|i: int|
                {
                    let node = lookup(nodes, (#[trigger] surviving[i]).0)->Some_0;
                    let key = node.name + seq!['@'] + node.version;
                    &&& 0 <= i < n - 1
                    &&& has_no_hash(node.meta.resolution)
                    &&& key.is_prefix_of(text)
                    &&& text[key.len() as int] == ' '
                };
            assert(surviving[i] == surviving[i]);
        } else {
            assert(surviving[n - 1] == surviving[n - 1]);
            let key = node.name + seq!['@'] + node.version;
            assert(key.is_prefix_of(text));
        }
    }
}

/// A plan fails only where the registry's address of a package cannot be built, with
/// the reason why.
pub proof fn only_a_bad_address_fails_a_plan(
    nodes: Table<NodeModel>,
    surviving: Table<Seq<Seq<char>>>,
    registry: RegistryModel,
    n: int,
)
    requires
        0 <= n <= surviving.len(),
        plan_after(nodes, surviving, registry, n) is Err,
    ensures
        exists|i: int|
            {
                let node = lookup(nodes, (#[trigger] surviving[i]).0)->Some_0;
                &&& 0 <= i < n
                &&& node.meta.resolution is Integrity
                &&& tarball_result(node.name, node.version, registry) == Err::<
                    Seq<char>,
                    VendorErrorModel,
                >(plan_after(nodes, surviving, registry, n)->Err_0)
            },
    decreases n,
{
    if n > 0 {
        if plan_after(nodes, surviving, registry, n - 1) is Err {
            only_a_bad_address_fails_a_plan(nodes, surviving, registry, n - 1);
            let i = choose|i: int|
                {
                    let node = lookup(nodes, (#[trigger] surviving[i]).0)->Some_0;
                    &&& 0 <= i < n - 1
                    &&& node.meta.resolution is Integrity
                    &&& tarball_result(node.name, node.version, registry) == Err::<
                        Seq<char>,
                        VendorErrorModel,
                    >(plan_after(nodes, surviving, registry, n - 1)->Err_0)
                };
            assert(surviving[i] == surviving[i]);
        } else {
            assert(surviving[n - 1] == surviving[n - 1]);
        }
    }
}

/// A request is made again unless what is recorded has its address and its hash: it is
/// left to fetch exactly where nothing is recorded or one of the two differs.
pub proof fn only_changed_packages_are_fetched(
    requests: Table<RequestModel>,
    existing: Table<EntryModel>,
    n: int,
    req: RequestModel,
)
    requires
        0 <= n <= requests.len(),
    ensures
        to_fetch(requests, existing, n).contains(req) <==> exists|i: int|
            {
                let old_entry = lookup(existing, (#[trigger] requests[i]).0);
                &&& 0 <= i < n
                &&& requests[i].1 == req
                &&& old_entry is Some ==> old_entry->Some_0.url != req.url
                    || old_entry->Some_0.sha512 != req.integrity
            },
    decreases n,
{
    if n > 0 {
        let before = to_fetch(requests, existing, n - 1);
        let now = to_fetch(requests, existing, n);
        only_changed_packages_are_fetched(requests, existing, n - 1, req);
        if before.contains(req) {
            let p = before.index_of(req);
            assert(now[p] == req);
        }
        if now.contains(req) && !before.contains(req) {
            assert(requests[n - 1].1 == req);
        }
        let last = lookup(existing, requests[n - 1].0);
        if requests[n - 1].1 == req && (last is Some ==> last->Some_0.url != req.url
            || last->Some_0.sha512 != req.integrity) {
            assert(now[now.len() - 1] == req);
        }
    }
}

/// What a download pass comes to, package by package: a package that failed is told of
/// and leaves no entry; one that was verified leaves all that was found in its archive,
/// beside the address and the hash that were expected. Where the lockfile's word on its
/// commands is not what the archive says, and only there, that is told of too.
pub proof fn every_outcome_is_recorded(
    carried: Map<Seq<char>, EntryModel>,
    results: Seq<(String, Outcome)>,
    expected: Table<ExpectedModel>,
    has_bin: Table<bool>,
    n: int,
    i: int,
)
    requires
        0 <= i < n <= results.len(),
        forall|a: int, b: int|
            0 <= a < b < results.len() ==> (#[trigger] results[a]).0@ != (
            #[trigger] results[b]).0@,
    ensures
        ({
            let after = collected_after(carried, results, expected, has_bin, n);
            let key = results[i].0@;
            match results[i].1 {
                Err(e) => {
                    &&& after.failures.contains(e.deep_view())
                    &&& after.entries.contains_key(key) == carried.contains_key(key)
                },
                Ok((verified, warnings)) => {
                    let v = verified.deep_view();
                    let told = lookup(has_bin, key)->Some_0;
                    &&& after.entries.contains_key(key)
                    &&& after.entries[key].url == lookup(expected, key)->Some_0.url
                    &&& after.entries[key].sha512 == lookup(expected, key)->Some_0.sha512
                    &&& after.entries[key].sha256 == v.sha256
                    &&& after.entries[key].size == v.size
                    &&& after.entries[key].root == v.inspection.root
                    &&& after.entries[key].bin == v.inspection.bin
                    &&& after.entries[key].has_install_script == v.inspection.has_install_script
                    &&& forall|w: VendorWarningModel|
                        warnings.deep_view().contains(w) ==> #[trigger] after.warnings.contains(w)
                    &&& told && v.inspection.bin.len() == 0 ==> after.warnings.contains(
                        VendorWarningModel::HasBinDisagreement { key, lockfile: true, found: 0 },
                    )
                    &&& !told && v.inspection.bin.len() > 0 ==> after.warnings.contains(
                        VendorWarningModel::HasBinDisagreement {
                            key,
                            lockfile: false,
                            found: v.inspection.bin.len() as int,
                        },
                    )
                },
            }
        }),
    decreases n,
{
    let before = collected_after(carried, results, expected, has_bin, n - 1);
    let after = collected_after(carried, results, expected, has_bin, n);
    later_outcomes_add(carried, results, expected, has_bin, n);
    if i < n - 1 {
        every_outcome_is_recorded(carried, results, expected, has_bin, n - 1, i);
        assert(results[i].0@ != results[n - 1].0@);
    } else {
        let key = results[i].0@;
        match results[i].1 {
            Err(e) => {
                assert(after.failures[after.failures.len() - 1] == e.deep_view());
                entries_come_from_results(carried, results, expected, has_bin, n - 1, key);
            },
            Ok((verified, warnings)) => {
                let ws = warnings.deep_view();
                assert forall|w: VendorWarningModel| ws.contains(w) implies #[trigger] after.warnings.contains(w) by {
                    let p = ws.index_of(w);
                    assert(after.warnings[before.warnings.len() + p] == w);
                }
                if after.warnings.len() > before.warnings.len() + ws.len() {
                    let last = after.warnings[after.warnings.len() - 1];
                    assert(after.warnings.contains(last));
                }
            },
        }
    }
}

proof fn later_outcomes_add(
    carried: Map<Seq<char>, EntryModel>,
    results: Seq<(String, Outcome)>,
    expected: Table<ExpectedModel>,
    has_bin: Table<bool>,
    n: int,
)
    requires
        0 < n <= results.len(),
    ensures
        ({
            let before = collected_after(carried, results, expected, has_bin, n - 1);
            let after = collected_after(carried, results, expected, has_bin, n);
            &&& forall|w: VendorWarningModel| before.warnings.contains(w)
                ==> #[trigger] after.warnings.contains(w)
            &&& forall|e: VendorErrorModel| before.failures.contains(e)
                ==> #[trigger] after.failures.contains(e)
        }),
{
    let before = collected_after(carried, results, expected, has_bin, n - 1);
    let after = collected_after(carried, results, expected, has_bin, n);
    assert forall|w: VendorWarningModel| before.warnings.contains(w) implies #[trigger] after.warnings.contains(w) by {
        let p = before.warnings.index_of(w);
        assert(after.warnings[p] == w);
    }
    assert forall|e: VendorErrorModel| before.failures.contains(e) implies #[trigger] after.failures.contains(e) by {
        let p = before.failures.index_of(e);
        assert(after.failures[p] == e);
    }
}

proof fn entries_come_from_results(
    carried: Map<Seq<char>, EntryModel>,
    results: Seq<(String, Outcome)>,
    expected: Table<ExpectedModel>,
    has_bin: Table<bool>,
    n: int,
    key: Seq<char>,
)
    requires
        0 <= n <= results.len(),
        forall|a: int| 0 <= a < n ==> (#[trigger] results[a]).0@ != key,
    ensures
        ({
            let after = collected_after(carried, results, expected, has_bin, n);
            &&& after.entries.contains_key(key) == carried.contains_key(key)
            &&& carried.contains_key(key) ==> after.entries[key] == carried[key]
        }),
    decreases n,
{
    if n > 0 {
        entries_come_from_results(carried, results, expected, has_bin, n - 1, key);
        assert(results[n - 1].0@ != key);
    }
}

/// A download pass warns of nothing else: each warning was given by a package's archive,
/// or says that the lockfile's word on a package's commands is not what its archive says.
pub proof fn every_warning_has_its_package(
    carried: Map<Seq<char>, EntryModel>,
    results: Seq<(String, Outcome)>,
    expected: Table<ExpectedModel>,
    has_bin: Table<bool>,
    n: int,
    w: VendorWarningModel,
)
    requires
        0 <= n <= results.len(),
        collected_after(carried, results, expected, has_bin, n).warnings.contains(w),
    ensures
        exists|i: int|
            {
                let key = (#[trigger] results[i]).0@;
                &&& 0 <= i < n
                &&& results[i].1 is Ok
                &&& {
                    let found = results[i].1->Ok_0.0.deep_view().inspection.bin.len() as int;
                    let told = lookup(has_bin, key)->Some_0;
                    ||| results[i].1->Ok_0.1.deep_view().contains(w)
                    ||| w == (VendorWarningModel::HasBinDisagreement { key, lockfile: told, found })
                        && told == (found == 0)
                }
            },
    decreases n,
{
    if n > 0 {
        let before = collected_after(carried, results, expected, has_bin, n - 1);
        let after = collected_after(carried, results, expected, has_bin, n);
        if before.warnings.contains(w) {
            every_warning_has_its_package(carried, results, expected, has_bin, n - 1, w);
            let i = choose|i: int|
                {
                    let key = (#[trigger] results[i]).0@;
                    &&& 0 <= i < n - 1
                    &&& results[i].1 is Ok
                    &&& {
                        let found = results[i].1->Ok_0.0.deep_view().inspection.bin.len() as int;
                        let told = lookup(has_bin, key)->Some_0;
                        ||| results[i].1->Ok_0.1.deep_view().contains(w)
                        ||| w == (VendorWarningModel::HasBinDisagreement {
                            key,
                            lockfile: told,
                            found,
                        }) && told == (found == 0)
                    }
                };
            assert(results[i] == results[i]);
        } else {
            let p = after.warnings.index_of(w);
            assert(after.warnings[p] == w);
            if p < before.warnings.len() {
                assert(before.warnings[p] == w);
            }
            match results[n - 1].1 {
                Ok((verified, warnings)) => {
                    let ws = warnings.deep_view();
                    if p < before.warnings.len() + ws.len() {
                        assert(ws[p - before.warnings.len()] == w);
                    }
                    assert(results[n - 1] == results[n - 1]);
                },
                Err(e) => {},
            }
        }
    }
}

/// What a download pass tells of stands in the order of the packages: what a package adds
/// stands behind all that those before it added.
pub proof fn a_pass_tells_in_order(
    carried: Map<Seq<char>, EntryModel>,
    results: Seq<(String, Outcome)>,
    expected: Table<ExpectedModel>,
    has_bin: Table<bool>,
    n: int,
)
    requires
        0 <= n < results.len(),
    ensures
        ({
            let before = collected_after(carried, results, expected, has_bin, n);
            let after = collected_after(carried, results, expected, has_bin, n + 1);
            &&& before.failures.is_prefix_of(after.failures)
            &&& before.warnings.is_prefix_of(after.warnings)
            &&& after.failures.len() == before.failures.len() + if results[n].1 is Err {
                1int
            } else {
                0int
            }
            &&& results[n].1 is Err ==> after.warnings == before.warnings && after.entries
                == before.entries && after.failures.last() == results[n].1->Err_0.deep_view()
        }),
{
    let before = collected_after(carried, results, expected, has_bin, n);
    let after = collected_after(carried, results, expected, has_bin, n + 1);
    assert(after.failures.take(before.failures.len() as int) =~= before.failures);
    assert(after.warnings.take(before.warnings.len() as int) =~= before.warnings);
}

} // verus!
