use daft::timeline::ancestry::render_ancestry_tree;
use daft::timeline::ascii::{render_single_dimension, render_terminal_graph};
use daft::timeline::builder::{CommitEntry, DimensionEntry, DimensionMeta, EntangledPair};
use daft::timeline::dot::render_dot;
use daft::timeline::graph::{MultiverseTimelineGraph, TimelineEdgeType, TimelineGraphBuilder, TimelineNodeType};
use daft::timeline::svg::render_svg;

const C1: &str = "1111111aaaa";
const C2: &str = "2222222bbbb";
const C3: &str = "3333333cccc";

fn commit(id: &str, parents: &[&str], author: &str, message: &str) -> CommitEntry {
    CommitEntry {
        id: id.to_string(),
        parents: parents.iter().map(|p| p.to_string()).collect(),
        author: author.to_string(),
        time: 0,
        message: message.to_string(),
    }
}

fn sample_graph() -> MultiverseTimelineGraph {
    let entries = vec![
        DimensionEntry {
            name: "mainline".to_string(),
            parent: None,
            status: "clean".to_string(),
            meta: None,
            head_commit: Some(C2.to_string()),
        },
        DimensionEntry {
            name: "feature".to_string(),
            parent: Some("mainline".to_string()),
            status: "clean".to_string(),
            meta: None,
            head_commit: Some(C3.to_string()),
        },
    ];
    let dims = TimelineGraphBuilder::dimensions("mainline", &None, &Some(C2.to_string()), &entries, None);
    let dims = TimelineGraphBuilder::with_fork_bases(&dims, &vec![None, Some(C1.to_string())]);
    let commits = vec![
        commit(C3, &[C1], "carol", "[weave] combine\nmore"),
        commit(C2, &[C1], "bob", "  second  "),
        commit(C1, &[], "alice", "init"),
    ];
    let links = vec![EntangledPair { dim1: "feature".to_string(), dim2: "mainline".to_string() }];
    TimelineGraphBuilder::build("repo".to_string(), "mainline".to_string(), dims, &commits, &links)
}

#[test]
fn dimensions_start_with_the_mainline() {
    let entries = vec![
        DimensionEntry {
            name: "feature-x".to_string(),
            parent: Some("mainline".to_string()),
            status: "dirty".to_string(),
            meta: Some(DimensionMeta {
                parent: Some("feature-base".to_string()),
                creator: "agent-9".to_string(),
                created_at: "2024-05-01".to_string(),
            }),
            head_commit: None,
        },
        DimensionEntry {
            name: "other".to_string(),
            parent: None,
            status: "clean".to_string(),
            meta: None,
            head_commit: None,
        },
    ];
    let dims = TimelineGraphBuilder::dimensions(
        "feature-x",
        &Some("2024-01-01".to_string()),
        &None,
        &entries,
        None,
    );
    assert_eq!(dims.len(), 3);
    assert_eq!(dims[0].name, "mainline");
    assert_eq!(dims[0].creator, "system");
    assert_eq!(dims[0].created_at, "2024-01-01");
    assert!(!dims[0].is_active);
    assert_eq!(dims[1].parent, Some("feature-base".to_string()));
    assert_eq!(dims[1].creator, "agent-9");
    assert_eq!(dims[1].lane, 1);
    assert!(dims[1].is_active);
    assert_eq!(dims[2].creator, "user");
    assert_eq!(dims[2].created_at, "");
    assert_eq!(dims[2].lane, 2);
    let only = TimelineGraphBuilder::dimensions("mainline", &None, &None, &entries, Some("other"));
    assert_eq!(only.len(), 2);
    assert_eq!(only[1].name, "other");
    assert_eq!(only[1].lane, 1);
}

#[test]
fn building_the_graph() {
    let g = sample_graph();
    assert_eq!(g.version, "1.0");
    assert_eq!(TimelineGraphBuilder::head_commits(&g.dimensions), vec![C2.to_string(), C3.to_string()]);
    assert_eq!(g.dimensions[1].fork_base_commit, Some(C1.to_string()));
    assert_eq!(g.dimensions[0].fork_base_commit, None);
    let n3 = &g.nodes[0];
    assert_eq!(n3.node_type, TimelineNodeType::Convergence);
    assert_eq!(n3.short_id, "3333333");
    assert_eq!(n3.summary, "[weave] combine");
    assert_eq!(n3.lane, 1);
    assert_eq!(n3.head_of_dimensions, vec!["feature".to_string()]);
    assert_eq!(n3.datetime, "1970-01-01T00:00:00+00:00");
    let n2 = &g.nodes[1];
    assert_eq!(n2.node_type, TimelineNodeType::Commit);
    assert_eq!(n2.summary, "second");
    assert_eq!(n2.lane, 0);
    let n1 = &g.nodes[2];
    assert_eq!(n1.node_type, TimelineNodeType::Root);
    assert_eq!(n1.forked_dimensions, vec!["feature".to_string()]);
    assert_eq!(n1.child_ids, vec![C3.to_string(), C2.to_string()]);
    assert_eq!(g.edges.len(), 3);
    assert_eq!(g.edges[0].source, C3);
    assert_eq!(g.edges[0].target, C1);
    assert_eq!(g.edges[2].edge_type, TimelineEdgeType::EntangleLink);
    assert_eq!(g.edges[2].label, Some("entangled".to_string()));
}

#[test]
fn terminal_rendering() {
    let g = sample_graph();
    assert_eq!(
        render_terminal_graph(&g),
        "Multiverse Timeline Graph:\n\
         | ◉  (feature) 3333333 [weave] combine - carol\n\
         *    (mainline) 2222222 second - bob\n\
         *    1111111 init - alice\n"
    );
    assert_eq!(
        render_single_dimension(&g, "feature"),
        "Timeline Graph for feature:\n* (feature) 3333333 [weave] combine\n"
    );
    assert_eq!(render_single_dimension(&g, "ghost"), "Timeline Graph for ghost:\n* (ghost)\n");
}

#[test]
fn ancestry_rendering() {
    let g = sample_graph();
    assert_eq!(
        render_ancestry_tree(&g),
        "Multiverse Ancestry Graph:\n\
         * [mainline] (origin) [head: 2222222]\n\
         └──  [feature] (forked from mainline @ 1111111) [head: 3333333, clean]\n"
    );
}

#[test]
fn dot_and_svg_rendering() {
    let g = sample_graph();
    let dot = render_dot(&g);
    assert!(dot.starts_with("digraph DaftMultiverse {\n  rankdir=BT;\n"));
    assert!(dot.contains("  subgraph cluster_mainline {\n    label=\"mainline (active)\";\n"));
    assert!(dot.contains("  \"node_3333333\" -> \"node_1111111\" [color=\"#64748B\"];\n"));
    assert!(dot.contains(
        "  \"node_feature\" -> \"node_mainlin\" [color=\"#06B6D4\", style=dotted, dir=both, label=\"entangled\"];\n"
    ));
    assert!(dot.ends_with("}\n"));
    let svg = render_svg(&g);
    assert!(svg.starts_with("<svg xmlns=\"http://www.w3.org/2000/svg\" viewBox=\"0 0 800 400\""));
    assert!(svg.contains("<path d=\"M 320 90 C 320 150, 140 150, 140 210\""));
    assert!(svg.ends_with("</svg>\n"));
}

#[test]
fn assembled_graph_puts_the_mainline_first() {
    let entries = vec![
        DimensionEntry {
            name: "feature".to_string(),
            parent: Some("mainline".to_string()),
            status: "clean".to_string(),
            meta: None,
            head_commit: Some(C3.to_string()),
        },
        DimensionEntry {
            name: "mainline".to_string(),
            parent: None,
            status: "clean".to_string(),
            meta: None,
            head_commit: Some(C2.to_string()),
        },
        DimensionEntry {
            name: "other".to_string(),
            parent: None,
            status: "clean".to_string(),
            meta: None,
            head_commit: None,
        },
    ];
    let commits = vec![commit(C3, &[C1], "carol", "x"), commit(C1, &[], "alice", "init")];
    let g = TimelineGraphBuilder::assemble(
        "repo".to_string(),
        "feature".to_string(),
        "feature",
        &None,
        &Some(C2.to_string()),
        &entries,
        Some("feature"),
        &vec![None, Some(C1.to_string())],
        &commits,
        &vec![],
    );
    let names: Vec<&str> = g.dimensions.iter().map(|d| d.name.as_str()).collect();
    assert_eq!(names, vec!["mainline", "feature"]);
    assert_eq!(g.dimensions[0].parent, None);
    assert_eq!(g.dimensions[1].lane, 1);
    assert_eq!(g.dimensions[1].fork_base_commit, Some(C1.to_string()));
    assert_eq!(g.nodes.len(), 2);
    assert_eq!(g.nodes[1].node_type, TimelineNodeType::Root);
}

#[test]
fn dot_cuts_edge_ends_after_seven_bytes() {
    let mut g = sample_graph();
    g.edges = vec![daft::timeline::graph::TimelineEdge {
        source: "aéééé".to_string(),
        target: "ééé".to_string(),
        edge_type: TimelineEdgeType::EntangleLink,
        label: None,
    }];
    let dot = render_dot(&g);
    assert!(dot.contains("  \"node_aééé\" -> \"node_ééé\" ["));
}

#[test]
fn renderers_cut_heads_after_seven_bytes() {
    let mut g = sample_graph();
    g.dimensions[0].head_commit = Some("aééééé".to_string());
    let tree = render_ancestry_tree(&g);
    assert!(tree.contains("* [mainline] (origin) [head: aééé]\n"));
    let terminal = render_terminal_graph(&g);
    assert!(terminal.starts_with("Multiverse Timeline Graph:\n"));
}
