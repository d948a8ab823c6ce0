//! The timeline as a Graphviz DOT digraph, one cluster per dimension.
use vstd::prelude::*;
use crate::text::{byte_prefix, concat_map, cuts_at, lemma_concat_map_step, prefix_in_bytes, replace_all, replace_char, str_eq, strs_view};
use crate::timeline::graph::{
    dim_views, edge_views, node_views, MultiverseTimelineGraph, TimelineDimension,
    TimelineDimensionView, TimelineEdge, TimelineEdgeType, TimelineEdgeView, TimelineNode,
    TimelineNodeType, TimelineNodeView,
};

verus! {

/// A text escaped for a DOT string: backslashes doubled, quotes escaped.
pub open spec fn dot_escaped(s: Seq<char>) -> Seq<char> {
    replace_char(replace_char(s, '\\', "\\\\"@), '"', "\\\""@)
}

fn escape_str(s: &str) -> (r: String)
    ensures
        r@ == dot_escaped(s@),
{
    let a = replace_all(s, '\\', "\\\\");
    replace_all(a.as_str(), '"', "\\\"")
}

/// A dimension name usable as a DOT identifier: dashes become underscores.
pub open spec fn dot_id(s: Seq<char>) -> Seq<char> {
    replace_char(s, '-', "_"@)
}

/// The node attributes of each kind of commit node.
pub open spec fn node_shape(t: TimelineNodeType) -> Seq<char> {
    match t {
        TimelineNodeType::Commit => "shape=ellipse, style=filled, fillcolor=\"#E2E8F0\""@,
        TimelineNodeType::Root => "shape=ellipse, style=filled, fillcolor=\"#FEF08A\""@,
        TimelineNodeType::ForkPoint => "shape=diamond, style=filled, fillcolor=\"#FEF08A\""@,
        TimelineNodeType::Merge => "shape=hexagon, style=filled, fillcolor=\"#BBF7D0\""@,
        TimelineNodeType::Convergence => "shape=hexagon, style=filled, fillcolor=\"#C084FC\""@,
        TimelineNodeType::DirtyWorkspace => "shape=note, style=\"dashed,filled\", fillcolor=\"#FECDD3\""@,
    }
}

fn node_shape_text(t: TimelineNodeType) -> (r: &'static str)
    ensures
        r@ == node_shape(t),
{
    match t {
        TimelineNodeType::Commit => "shape=ellipse, style=filled, fillcolor=\"#E2E8F0\"",
        TimelineNodeType::Root => "shape=ellipse, style=filled, fillcolor=\"#FEF08A\"",
        TimelineNodeType::ForkPoint => "shape=diamond, style=filled, fillcolor=\"#FEF08A\"",
        TimelineNodeType::Merge => "shape=hexagon, style=filled, fillcolor=\"#BBF7D0\"",
        TimelineNodeType::Convergence => "shape=hexagon, style=filled, fillcolor=\"#C084FC\"",
        TimelineNodeType::DirtyWorkspace => "shape=note, style=\"dashed,filled\", fillcolor=\"#FECDD3\"",
    }
}

/// The edge attributes of each kind of edge.
pub open spec fn edge_style(t: TimelineEdgeType) -> Seq<char> {
    match t {
        TimelineEdgeType::CommitParent => "color=\"#64748B\""@,
        TimelineEdgeType::DimensionFork => "color=\"#A855F7\", style=dashed, label=\"fork\""@,
        TimelineEdgeType::MergeInput => "color=\"#10B981\""@,
        TimelineEdgeType::LiveWorkspace => "color=\"#E11D48\", style=dashed"@,
        TimelineEdgeType::EntangleLink => "color=\"#06B6D4\", style=dotted, dir=both, label=\"entangled\""@,
    }
}

fn edge_style_text(t: TimelineEdgeType) -> (r: &'static str)
    ensures
        r@ == edge_style(t),
{
    match t {
        TimelineEdgeType::CommitParent => "color=\"#64748B\"",
        TimelineEdgeType::DimensionFork => "color=\"#A855F7\", style=dashed, label=\"fork\"",
        TimelineEdgeType::MergeInput => "color=\"#10B981\"",
        TimelineEdgeType::LiveWorkspace => "color=\"#E11D48\", style=dashed",
        TimelineEdgeType::EntangleLink => "color=\"#06B6D4\", style=dotted, dir=both, label=\"entangled\"",
    }
}

/// The declaration of a commit node with the given attributes.
pub open spec fn node_decl(indent: Seq<char>, n: TimelineNodeView, shape: Seq<char>) -> Seq<char> {
    indent + "\"node_"@ + n.short_id + "\" [label=\""@ + n.short_id + "\n"@ + dot_escaped(n.summary)
        + "\", "@ + shape + "];\n"@
}

/// The commit node inside a dimension's cluster, when the node is that
/// dimension's head.
pub open spec fn cluster_node(d: TimelineDimensionView, n: TimelineNodeView) -> Seq<char> {
    if n.head_of_dimensions.contains(d.name) {
        node_decl("    "@, n, node_shape(n.node_type))
    } else {
        Seq::empty()
    }
}

/// The cluster of one dimension.
pub open spec fn cluster(d: TimelineDimensionView, nodes: Seq<TimelineNodeView>) -> Seq<char> {
    "  subgraph cluster_"@ + dot_id(d.name) + " {\n"@ + "    label=\""@ + dot_escaped(d.name) + (
    if d.is_active {
        " (active)"@
    } else {
        ""@
    }) + "\";\n"@ + "    style=\"rounded,filled\";\n"@ + "    color=\"#CBD5E1\";\n"@
        + "    fillcolor=\"#F8FAFC\";\n\n"@ + (if d.head_commit is None {
        "    \"dim_"@ + dot_id(d.name) + "\" [label=\""@ + dot_escaped(d.name)
            + " [unborn]\", shape=box, style=\"filled,rounded\", fillcolor=\"#E2E8F0\"];\n"@
    } else {
        ""@
    }) + concat_map(nodes, |n: TimelineNodeView| cluster_node(d, n)) + "  }\n\n"@
}

/// A commit node that is no dimension's head.
pub open spec fn loose_node(n: TimelineNodeView) -> Seq<char> {
    if n.head_of_dimensions.len() == 0 {
        node_decl("  "@, n, "shape=ellipse, style=filled, fillcolor=\"#E2E8F0\""@)
    } else {
        Seq::empty()
    }
}

/// One edge.
pub open spec fn edge_line(e: TimelineEdgeView) -> Seq<char> {
    "  \"node_"@ + byte_prefix(e.source, 7) + "\" -> \"node_"@ + byte_prefix(e.target, 7) + "\" ["@ + edge_style(
        e.edge_type,
    ) + "];\n"@
}

/// The fork link of a dimension to its parent, drawn when there are no nodes.
pub open spec fn parent_link(d: TimelineDimensionView) -> Seq<char> {
    match d.parent {
        Some(p) => "  \"dim_"@ + dot_id(d.name) + "\" -> \"dim_"@ + dot_id(p)
            + "\" [style=dashed, label=\"forked\"];\n"@,
        None => Seq::empty(),
    }
}

pub open spec fn dot_preamble() -> Seq<char> {
    "digraph DaftMultiverse {\n"@ + "  rankdir=BT;\n"@ + "  compound=true;\n"@
        + "  fontname=\"Helvetica,Arial,sans-serif\";\n"@
        + "  node [fontname=\"Helvetica,Arial,sans-serif\", fontsize=10, margin=\"0.12,0.06\"];\n"@
        + "  edge [fontname=\"Helvetica,Arial,sans-serif\", fontsize=9];\n\n"@
}

/// The DOT rendering of the whole timeline.
pub open spec fn dot_graph(
    dims: Seq<TimelineDimensionView>,
    nodes: Seq<TimelineNodeView>,
    edges: Seq<TimelineEdgeView>,
) -> Seq<char> {
    dot_preamble() + concat_map(dims, |d: TimelineDimensionView| cluster(d, nodes)) + concat_map(
        nodes,
        |n: TimelineNodeView| loose_node(n),
    ) + concat_map(edges, |e: TimelineEdgeView| edge_line(e)) + (if nodes.len() == 0 {
        concat_map(dims, |d: TimelineDimensionView| parent_link(d))
    } else {
        ""@
    }) + "}\n"@
}

/// The ends of every edge can be cut after their first seven bytes: each
/// is shorter, or its seventh byte ends a character.
pub open spec fn edges_cut_cleanly(edges: Seq<TimelineEdgeView>) -> bool {
    forall|k: int|
        0 <= k < edges.len() ==> cuts_at((#[trigger] edges[k]).source, 7) && cuts_at(edges[k].target, 7)
}

fn node_decl_text(indent: &str, n: &TimelineNode, shape: &str) -> (r: String)
    ensures
        r@ == node_decl(indent@, n@, shape@),
{
    let mut out = String::from_str(indent);
    out.append("\"node_");
    out.append(n.short_id.as_str());
    out.append("\" [label=\"");
    out.append(n.short_id.as_str());
    out.append("\n");
    let esc = escape_str(n.summary.as_str());
    out.append(esc.as_str());
    out.append("\", ");
    out.append(shape);
    out.append("];\n");
    out
}

fn contains_name(v: &Vec<String>, s: &str) -> (r: bool)
    ensures
        r == strs_view(v@).contains(s@),
{
    let mut i: usize = 0;
    while i < v.len()
        invariant
            i <= v.len(),
            forall|k: int| 0 <= k < i ==> strs_view(v@)[k] != s@,
        decreases v.len() - i,
    {
        if str_eq(v[i].as_str(), s) {
            assert(strs_view(v@)[i as int] == s@);
            return true;
        }
        i = i + 1;
    }
    false
}

fn cluster_text(d: &TimelineDimension, nodes: &Vec<TimelineNode>) -> (r: String)
    ensures
        r@ == cluster(d@, node_views(nodes@)),
{
    let ghost nv = node_views(nodes@);
    let safe = replace_all(d.name.as_str(), '-', "_");
    let esc = escape_str(d.name.as_str());
    let mut out = String::from_str("  subgraph cluster_");
    out.append(safe.as_str());
    out.append(" {\n");
    out.append("    label=\"");
    out.append(esc.as_str());
    if d.is_active {
        out.append(" (active)");
    } else {
        out.append("");
    }
    out.append("\";\n");
    out.append("    style=\"rounded,filled\";\n");
    out.append("    color=\"#CBD5E1\";\n");
    out.append("    fillcolor=\"#F8FAFC\";\n\n");
    if d.head_commit.is_none() {
        out.append("    \"dim_");
        out.append(safe.as_str());
        out.append("\" [label=\"");
        out.append(esc.as_str());
        out.append(" [unborn]\", shape=box, style=\"filled,rounded\", fillcolor=\"#E2E8F0\"];\n");
    } else {
        out.append("");
    }
    let ghost head = out@;
    let ghost f = |n: TimelineNodeView| cluster_node(d@, n);
    let mut i: usize = 0;
    proof {
        assert(nv.take(0) =~= Seq::<TimelineNodeView>::empty());
    }
    while i < nodes.len()
        invariant
            i <= nodes.len(),
            nv == node_views(nodes@),
            f == (|n: TimelineNodeView| cluster_node(d@, n)),
            out@ == head + concat_map(nv.take(i as int), f),
        decreases nodes.len() - i,
    {
        let n = &nodes[i];
        proof {
            lemma_concat_map_step(nv, i as int, f);
            assert(nv[i as int] == n@);
        }
        let ghost before = out@;
        if contains_name(&n.head_of_dimensions, d.name.as_str()) {
            let line = node_decl_text("    ", n, node_shape_text(n.node_type));
            out.append(line.as_str());
        }
        proof {
            assert(out@ =~= before + cluster_node(d@, n@));
        }
        i = i + 1;
    }
    proof {
        assert(nv.take(nodes.len() as int) =~= nv);
    }
    out.append("  }\n\n");
    out
}

fn edge_text(e: &TimelineEdge) -> (r: String)
    ensures
        r@ == edge_line(e@),
{
    let src = prefix_in_bytes(e.source.as_str(), 7);
    let tgt = prefix_in_bytes(e.target.as_str(), 7);
    let mut out = String::from_str("  \"node_");
    out.append(src.as_str());
    out.append("\" -> \"node_");
    out.append(tgt.as_str());
    out.append("\" [");
    out.append(edge_style_text(e.edge_type));
    out.append("];\n");
    out
}

fn parent_link_text(d: &TimelineDimension) -> (r: String)
    ensures
        r@ == parent_link(d@),
{
    match &d.parent {
        Some(p) => {
            let a = replace_all(d.name.as_str(), '-', "_");
            let b = replace_all(p.as_str(), '-', "_");
            let mut out = String::from_str("  \"dim_");
            out.append(a.as_str());
            out.append("\" -> \"dim_");
            out.append(b.as_str());
            out.append("\" [style=dashed, label=\"forked\"];\n");
            out
        },
        None => String::new(),
    }
}

/// Renders the timeline as a DOT digraph: a cluster per dimension holding the
/// commits it is the head of, the other commits, every edge, and the fork
/// links between dimensions when there are no commits.
pub fn render_dot(graph: &MultiverseTimelineGraph) -> (r: String)
    requires
        edges_cut_cleanly(edge_views(graph.edges@)),
    ensures
        r@ == dot_graph(
            dim_views(graph.dimensions@),
            node_views(graph.nodes@),
            edge_views(graph.edges@),
        ),
{
    let ghost dv = dim_views(graph.dimensions@);
    let ghost nv = node_views(graph.nodes@);
    let ghost ev = edge_views(graph.edges@);
    let mut out = String::from_str("digraph DaftMultiverse {\n");
    out.append("  rankdir=BT;\n");
    out.append("  compound=true;\n");
    out.append("  fontname=\"Helvetica,Arial,sans-serif\";\n");
    out.append(
        "  node [fontname=\"Helvetica,Arial,sans-serif\", fontsize=10, margin=\"0.12,0.06\"];\n",
    );
    out.append("  edge [fontname=\"Helvetica,Arial,sans-serif\", fontsize=9];\n\n");
    let ghost p0 = out@;
    let ghost fc = |d: TimelineDimensionView| cluster(d, nv);
    let mut k: usize = 0;
    proof {
        assert(dv.take(0) =~= Seq::<TimelineDimensionView>::empty());
    }
    while k < graph.dimensions.len()
        invariant
            k <= graph.dimensions.len(),
            dv == dim_views(graph.dimensions@),
            nv == node_views(graph.nodes@),
            fc == (|d: TimelineDimensionView| cluster(d, nv)),
            out@ == p0 + concat_map(dv.take(k as int), fc),
        decreases graph.dimensions.len() - k,
    {
        proof {
            lemma_concat_map_step(dv, k as int, fc);
            assert(dv[k as int] == graph.dimensions@[k as int]@);
        }
        let c = cluster_text(&graph.dimensions[k], &graph.nodes);
        out.append(c.as_str());
        k = k + 1;
    }
    proof {
        assert(dv.take(graph.dimensions.len() as int) =~= dv);
    }
    let ghost p1 = out@;
    let ghost fl = |n: TimelineNodeView| loose_node(n);
    let mut i: usize = 0;
    proof {
        assert(nv.take(0) =~= Seq::<TimelineNodeView>::empty());
    }
    while i < graph.nodes.len()
        invariant
            i <= graph.nodes.len(),
            nv == node_views(graph.nodes@),
            fl == (|n: TimelineNodeView| loose_node(n)),
            out@ == p1 + concat_map(nv.take(i as int), fl),
        decreases graph.nodes.len() - i,
    {
        let n = &graph.nodes[i];
        proof {
            lemma_concat_map_step(nv, i as int, fl);
            assert(nv[i as int] == n@);
        }
        let ghost before = out@;
        if n.head_of_dimensions.len() == 0 {
            let line = node_decl_text(
                "  ",
                n,
                "shape=ellipse, style=filled, fillcolor=\"#E2E8F0\"",
            );
            out.append(line.as_str());
        }
        proof {
            assert(out@ =~= before + loose_node(n@));
        }
        i = i + 1;
    }
    proof {
        assert(nv.take(graph.nodes.len() as int) =~= nv);
    }
    let ghost p2 = out@;
    let ghost fe = |e: TimelineEdgeView| edge_line(e);
    let mut j: usize = 0;
    proof {
        assert(ev.take(0) =~= Seq::<TimelineEdgeView>::empty());
    }
    while j < graph.edges.len()
        invariant
            j <= graph.edges.len(),
            ev == edge_views(graph.edges@),
            edges_cut_cleanly(ev),
            fe == (|e: TimelineEdgeView| edge_line(e)),
            out@ == p2 + concat_map(ev.take(j as int), fe),
        decreases graph.edges.len() - j,
    {
        proof {
            lemma_concat_map_step(ev, j as int, fe);
            assert(ev[j as int] == graph.edges@[j as int]@);
        }
        let line = edge_text(&graph.edges[j]);
        out.append(line.as_str());
        j = j + 1;
    }
    proof {
        assert(ev.take(graph.edges.len() as int) =~= ev);
    }
    let ghost p3 = out@;
    if graph.nodes.len() == 0 {
        let ghost fp = |d: TimelineDimensionView| parent_link(d);
        let mut m: usize = 0;
        proof {
            assert(dv.take(0) =~= Seq::<TimelineDimensionView>::empty());
        }
        while m < graph.dimensions.len()
            invariant
                m <= graph.dimensions.len(),
                dv == dim_views(graph.dimensions@),
                fp == (|d: TimelineDimensionView| parent_link(d)),
                out@ == p3 + concat_map(dv.take(m as int), fp),
            decreases graph.dimensions.len() - m,
        {
            proof {
                lemma_concat_map_step(dv, m as int, fp);
                assert(dv[m as int] == graph.dimensions@[m as int]@);
            }
            let line = parent_link_text(&graph.dimensions[m]);
            out.append(line.as_str());
            m = m + 1;
        }
        proof {
            assert(dv.take(graph.dimensions.len() as int) =~= dv);
        }
    } else {
        out.append("");
    }
    out.append("}\n");
    out
}

} // verus!
