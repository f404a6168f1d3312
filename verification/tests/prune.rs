//! Per-platform pruning.

use pudu::config::Platform;
use pudu::dict::Dict;
use pudu::error::PlatformWarning;
use pudu::lock::graph::{Edge, EdgeKind, Graph, Node};
use pudu::lock::types::{PackageMeta, Resolution};
use pudu::platform::prune::{prune, Matrix, PlatformView};
use pudu::platform::{Cpu, Libc, Os};

fn view<'a>(m: &'a Matrix, name: &str) -> &'a PlatformView {
    m.views.get(name).unwrap()
}

fn meta(os: Option<&[&str]>, cpu: Option<&[&str]>) -> PackageMeta {
    PackageMeta {
        resolution: Resolution::Integrity {
            integrity: "sha512-t".into(),
        },
        engines: Dict::new(),
        os: os.map(|v| v.iter().map(|s| s.to_string()).collect()),
        cpu: cpu.map(|v| v.iter().map(|s| s.to_string()).collect()),
        libc: None,
        has_bin: false,
        deprecated: None,
        peer_dependencies: Dict::new(),
        peer_dependencies_meta: Dict::new(),
        bundled_dependencies: Vec::new(),
    }
}

fn node(name: &str, version: &str, m: PackageMeta, edges: Vec<Edge>) -> Node {
    Node {
        name: name.into(),
        version: version.into(),
        peers: Vec::new(),
        target_name: format!("{name}@{version}").replace('/', "+"),
        optional: false,
        meta: m,
        edges,
    }
}

fn edge(link: &str, target: &str, kind: EdgeKind) -> Edge {
    Edge {
        link_name: link.into(),
        target: target.into(),
        kind,
    }
}

fn graph(nodes: Vec<(&str, Node)>) -> Graph {
    Graph {
        nodes: {
            let mut d = Dict::new();
            for (k, n) in nodes {
                d.insert(k.to_string(), n);
            }
            d
        },
        roots: Vec::new(),
        cycles: Vec::new(),
    }
}

fn platforms() -> Dict<Platform> {
    let mut d = Dict::new();
    for (k, p) in vec![
        (
            "linux-x64-gnu".to_string(),
            Platform {
                os: Os::Linux,
                cpu: Cpu::X64,
                libc: Some(Libc::Glibc),
                constraints: None,
            },
        ),
        (
            "darwin-arm64".to_string(),
            Platform {
                os: Os::Darwin,
                cpu: Cpu::Arm64,
                libc: None,
                constraints: None,
            },
        ),
    ] {
        d.insert(k, p);
    }
    d
}

#[test]
fn a_gated_package_survives_only_where_its_fields_admit() {
    let g = graph(vec![
        ("app@1.0.0", node("app", "1.0.0", meta(None, None), vec![])),
        (
            "fsevents@2.3.3",
            node("fsevents", "2.3.3", meta(Some(&["darwin"]), None), vec![]),
        ),
    ]);
    let (m, _) = prune(&g, &platforms());
    assert!(view(&m, "linux-x64-gnu").nodes.contains("app@1.0.0"));
    assert!(!view(&m, "linux-x64-gnu").nodes.contains("fsevents@2.3.3"));
    assert!(view(&m, "linux-x64-gnu").pruned.contains("fsevents@2.3.3"));
    assert!(view(&m, "darwin-arm64").nodes.contains("fsevents@2.3.3"));
}

#[test]
fn nodes_and_pruned_partition_the_graph() {
    let g = graph(vec![
        ("app@1.0.0", node("app", "1.0.0", meta(None, None), vec![])),
        (
            "fsevents@2.3.3",
            node("fsevents", "2.3.3", meta(Some(&["darwin"]), None), vec![]),
        ),
        (
            "win-only@1.0.0",
            node("win-only", "1.0.0", meta(Some(&["win32"]), None), vec![]),
        ),
    ]);
    let (m, _) = prune(&g, &platforms());
    for i in 0..m.views.len() {
        let (name, view) = (m.views.key(i), m.views.value(i));
        assert_eq!(
            view.nodes.len() + view.pruned.len(),
            g.nodes.len(),
            "{name} must partition the graph"
        );
        assert!((0..view.nodes.len()).all(|k| !view.pruned.contains(view.nodes.name(k))), "{name} overlaps");
    }
}

#[test]
fn platforms_by_node_is_the_transpose_of_views() {
    let g = graph(vec![
        ("app@1.0.0", node("app", "1.0.0", meta(None, None), vec![])),
        (
            "fsevents@2.3.3",
            node("fsevents", "2.3.3", meta(Some(&["darwin"]), None), vec![]),
        ),
    ]);
    let (m, _) = prune(&g, &platforms());
    assert_eq!(
        m.platforms_by_node.get("app@1.0.0").unwrap().to_list(),
        vec!["darwin-arm64".to_string(), "linux-x64-gnu".to_string()]
    );
    assert_eq!(
        m.platforms_by_node.get("fsevents@2.3.3").unwrap().to_list(),
        vec!["darwin-arm64".to_string()]
    );
}

#[test]
fn a_package_on_no_platform_is_absent_from_the_transpose() {
    let g = graph(vec![(
        "win-only@1.0.0",
        node("win-only", "1.0.0", meta(Some(&["win32"]), None), vec![]),
    )]);
    let (m, _) = prune(&g, &platforms());
    assert!(!m.platforms_by_node.contains_key("win-only@1.0.0"));
}

#[test]
fn a_dropped_optional_edge_is_silent() {
    let g = graph(vec![
        (
            "esbuild@0.25.12",
            node(
                "esbuild",
                "0.25.12",
                meta(None, None),
                vec![edge(
                    "@esbuild/darwin-arm64",
                    "@esbuild/darwin-arm64@0.25.12",
                    EdgeKind::Optional,
                )],
            ),
        ),
        (
            "@esbuild/darwin-arm64@0.25.12",
            node(
                "@esbuild/darwin-arm64",
                "0.25.12",
                meta(Some(&["darwin"]), None),
                vec![],
            ),
        ),
    ]);
    let (m, warnings) = prune(&g, &platforms());
    assert!(view(&m, "linux-x64-gnu").dropped_required_edges.is_empty());
    assert!(
        !warnings
            .iter()
            .any(|w| matches!(w, PlatformWarning::RequiredDependencyExcluded { .. })),
        "an excluded optional dependency is the normal case and must be silent"
    );
}

#[test]
fn a_dropped_required_edge_warns_and_is_recorded() {
    let g = graph(vec![
        (
            "my-app@1.0.0",
            node(
                "my-app",
                "1.0.0",
                meta(None, None),
                vec![edge("fsevents", "fsevents@2.3.3", EdgeKind::Prod)],
            ),
        ),
        (
            "fsevents@2.3.3",
            node("fsevents", "2.3.3", meta(Some(&["darwin"]), None), vec![]),
        ),
    ]);
    let (m, warnings) = prune(&g, &platforms());

    let dropped = &view(&m, "linux-x64-gnu").dropped_required_edges;
    assert_eq!(dropped.len(), 1);
    assert_eq!(dropped[0].dependent, "my-app@1.0.0");
    assert_eq!(dropped[0].link_name, "fsevents");
    assert_eq!(dropped[0].target, "fsevents@2.3.3");
    assert!(view(&m, "darwin-arm64").dropped_required_edges.is_empty());

    let w: Vec<_> = warnings
        .iter()
        .filter(|w| matches!(w, PlatformWarning::RequiredDependencyExcluded { .. }))
        .collect();
    assert_eq!(w.len(), 1, "one warning for one dropped required edge");
}

#[test]
fn an_edge_from_a_pruned_dependent_does_not_warn() {
    let g = graph(vec![
        (
            "win-tool@1.0.0",
            node(
                "win-tool",
                "1.0.0",
                meta(Some(&["win32"]), None),
                vec![edge("fsevents", "fsevents@2.3.3", EdgeKind::Prod)],
            ),
        ),
        (
            "fsevents@2.3.3",
            node("fsevents", "2.3.3", meta(Some(&["darwin"]), None), vec![]),
        ),
    ]);
    let (m, warnings) = prune(&g, &platforms());
    assert!(view(&m, "linux-x64-gnu").dropped_required_edges.is_empty());
    assert!(
        !warnings
            .iter()
            .any(|w| matches!(w, PlatformWarning::RequiredDependencyExcluded { .. })),
        "the dependent is absent here; its edges are not 'dropped'"
    );
}

#[test]
fn excluded_everywhere_warns_once_for_all_such_packages() {
    let g = graph(vec![
        ("app@1.0.0", node("app", "1.0.0", meta(None, None), vec![])),
        (
            "a-win@1.0.0",
            node("a-win", "1.0.0", meta(Some(&["win32"]), None), vec![]),
        ),
        (
            "b-win@1.0.0",
            node("b-win", "1.0.0", meta(Some(&["win32"]), None), vec![]),
        ),
        (
            "c-aix@1.0.0",
            node("c-aix", "1.0.0", meta(Some(&["aix"]), None), vec![]),
        ),
    ]);
    let (_, warnings) = prune(&g, &platforms());
    let everywhere: Vec<_> = warnings
        .iter()
        .filter_map(|w| match w {
            PlatformWarning::ExcludedEverywhere { packages, .. } => Some(packages),
            _ => None,
        })
        .collect();
    assert_eq!(everywhere.len(), 1, "exactly one aggregated warning");
    assert_eq!(
        everywhere[0],
        &vec![
            "a-win@1.0.0".to_string(),
            "b-win@1.0.0".to_string(),
            "c-aix@1.0.0".to_string()
        ]
        .into_iter()
        .collect::<std::collections::BTreeSet<_>>()
        .into_iter()
        .collect::<Vec<_>>(),
        "sorted, all three, once"
    );
}

#[test]
fn no_excluded_everywhere_warning_when_every_package_survives_somewhere() {
    let g = graph(vec![
        ("app@1.0.0", node("app", "1.0.0", meta(None, None), vec![])),
        (
            "fsevents@2.3.3",
            node("fsevents", "2.3.3", meta(Some(&["darwin"]), None), vec![]),
        ),
    ]);
    let (_, warnings) = prune(&g, &platforms());
    assert!(
        !warnings
            .iter()
            .any(|w| matches!(w, PlatformWarning::ExcludedEverywhere { .. })),
        "every package is on some platform"
    );
}

#[test]
fn output_is_deterministic_across_runs() {
    let g = graph(vec![
        ("app@1.0.0", node("app", "1.0.0", meta(None, None), vec![])),
        (
            "a-win@1.0.0",
            node("a-win", "1.0.0", meta(Some(&["win32"]), None), vec![]),
        ),
        (
            "z-win@1.0.0",
            node("z-win", "1.0.0", meta(Some(&["win32"]), None), vec![]),
        ),
    ]);
    let (m1, w1) = prune(&g, &platforms());
    let (m2, w2) = prune(&g, &platforms());
    assert_eq!(m1.views, m2.views);
    assert_eq!(m1.platforms_by_node, m2.platforms_by_node);
    assert_eq!(w1, w2);
}
