//! The timeline as an SVG picture: a column per dimension, a marker per
//! commit, and a curve per edge between drawn commits.
use vstd::prelude::*;
use crate::text::{concat_map, concat_upto, decimal, lemma_concat_map_step, replace_char, replace_all, str_eq, usize_to_decimal};
use crate::timeline::graph::{
    dim_views, edge_views, node_views, MultiverseTimelineGraph, TimelineDimensionView,
    TimelineEdge, TimelineEdgeView, TimelineNode, TimelineNodeType, TimelineNodeView,
};

verus! {

/// A text escaped for XML.
pub open spec fn xml_escaped(s: Seq<char>) -> Seq<char> {
    replace_char(
        replace_char(
            replace_char(replace_char(replace_char(s, '&', "&amp;"@), '<', "&lt;"@), '>', "&gt;"@),
            '"',
            "&quot;"@,
        ),
        '\'',
        "&apos;"@,
    )
}

fn escape_xml(s: &str) -> (r: String)
    ensures
        r@ == xml_escaped(s@),
{
    let a = replace_all(s, '&', "&amp;");
    let b = replace_all(a.as_str(), '<', "&lt;");
    let c = replace_all(b.as_str(), '>', "&gt;");
    let d = replace_all(c.as_str(), '"', "&quot;");
    replace_all(d.as_str(), '\'', "&apos;")
}

pub open spec fn num(n: int) -> Seq<char> {
    decimal(n as nat)
}

pub open spec fn at_least(a: int, b: int) -> int {
    if a >= b {
        a
    } else {
        b
    }
}

/// The picture's width: room for every dimension column, at least 800.
pub open spec fn svg_width(dims: int) -> int {
    at_least(at_least(dims, 1) * 180 + 160, 800)
}

/// The picture's height: room for every commit row, at least 400.
pub open spec fn svg_height(nodes: int) -> int {
    at_least((at_least(nodes, 1) + 2) * 70, 400)
}

/// Where the commit node at row `idx` in `lane` is drawn.
pub open spec fn node_x(lane: int) -> int {
    60 + lane * 180 + 80
}

pub open spec fn node_y(idx: int) -> int {
    90 + idx * 60
}

pub open spec fn svg_header(w: int, h: int) -> Seq<char> {
    "<svg xmlns=\"http://www.w3.org/2000/svg\" viewBox=\"0 0 "@ + num(w) + " "@ + num(h)
        + "\" width=\""@ + num(w) + "\" height=\""@ + num(h)
        + "\" style=\"background:#0f172a;font-family:-apple-system,BlinkMacSystemFont,'Segoe UI',Roboto,sans-serif;\">\n"@
        + "  <defs>\n"@ + "    <linearGradient id=\"laneGrad\" x1=\"0%\" y1=\"0%\" x2=\"0%\" y2=\"100%\">\n"@
        + "      <stop offset=\"0%\" stop-color=\"#1e293b\" stop-opacity=\"0.6\"/>\n"@
        + "      <stop offset=\"100%\" stop-color=\"#0f172a\" stop-opacity=\"0.8\"/>\n"@
        + "    </linearGradient>\n"@ + "  </defs>\n\n"@
}

/// The column of the `i`-th dimension.
pub open spec fn lane_column(i: int, d: TimelineDimensionView, h: int) -> Seq<char> {
    "  <rect x=\""@ + num(60 + i * 180) + "\" y=\"30\" width=\"160\" height=\""@ + num(h - 60)
        + "\" rx=\"8\" fill=\"url(#laneGrad)\" stroke=\"#334155\" stroke-width=\"1\"/>\n"@
        + "  <text x=\""@ + num(60 + i * 180 + 80)
        + "\" y=\"54\" fill=\"#38bdf8\" font-size=\"14\" font-weight=\"bold\" text-anchor=\"middle\">"@
        + xml_escaped(d.name) + (if d.is_active {
        " *"@
    } else {
        ""@
    }) + "</text>\n"@
}

pub open spec fn fill_color(t: TimelineNodeType) -> Seq<char> {
    match t {
        TimelineNodeType::Root => "#eab308"@,
        TimelineNodeType::ForkPoint => "#f59e0b"@,
        TimelineNodeType::Merge => "#10b981"@,
        TimelineNodeType::Convergence => "#a855f7"@,
        TimelineNodeType::DirtyWorkspace => "#f43f5e"@,
        TimelineNodeType::Commit => "#38bdf8"@,
    }
}

pub open spec fn stroke_color(t: TimelineNodeType) -> Seq<char> {
    match t {
        TimelineNodeType::Root => "#ca8a04"@,
        TimelineNodeType::ForkPoint => "#d97706"@,
        TimelineNodeType::Merge => "#059669"@,
        TimelineNodeType::Convergence => "#9333ea"@,
        TimelineNodeType::DirtyWorkspace => "#e11d48"@,
        TimelineNodeType::Commit => "#0284c7"@,
    }
}

/// The marker of a node at `(x, y)`: a diamond for fork points, a hexagon
/// for merges and convergences, a square for dirty workspaces, a circle
/// otherwise.
pub open spec fn marker(t: TimelineNodeType, x: int, y: int) -> Seq<char> {
    let paint = "\" fill=\""@ + fill_color(t) + "\" stroke=\""@ + stroke_color(t)
        + "\" stroke-width=\"2\"/>\n"@;
    match t {
        TimelineNodeType::ForkPoint => "    <polygon points=\""@ + num(x) + ","@ + num(y - 10) + " "@
            + num(x + 10) + ","@ + num(y) + " "@ + num(x) + ","@ + num(y + 10) + " "@ + num(x - 10)
            + ","@ + num(y) + paint,
        TimelineNodeType::Merge | TimelineNodeType::Convergence => "    <polygon points=\""@ + num(
            x - 10,
        ) + ","@ + num(y - 6) + " "@ + num(x) + ","@ + num(y - 12) + " "@ + num(x + 10) + ","@
            + num(y - 6) + " "@ + num(x + 10) + ","@ + num(y + 6) + " "@ + num(x) + ","@ + num(
            y + 12,
        ) + " "@ + num(x - 10) + ","@ + num(y + 6) + paint,
        TimelineNodeType::DirtyWorkspace => "    <rect x=\""@ + num(x - 9) + "\" y=\""@ + num(y - 9)
            + "\" width=\"18\" height=\"18\" rx=\"3"@ + paint,
        _ => "    <circle cx=\""@ + num(x) + "\" cy=\""@ + num(y) + "\" r=\"9"@ + paint,
    }
}

/// The group of the `idx`-th node.
pub open spec fn node_group(idx: int, n: TimelineNodeView) -> Seq<char> {
    let x = node_x(n.lane as int);
    let y = node_y(idx);
    "  <g id=\"node_"@ + n.short_id + "\">\n"@ + "    <title>Commit: "@ + n.id + "&#10;Author: "@
        + xml_escaped(n.author) + "&#10;Summary: "@ + xml_escaped(n.summary) + "</title>\n"@ + marker(
        n.node_type,
        x,
        y,
    ) + "    <text x=\""@ + num(x + 16) + "\" y=\""@ + num(y + 4)
        + "\" fill=\"#94a3b8\" font-size=\"11\" font-family=\"monospace\">"@ + n.short_id
        + "</text>\n"@ + "  </g>\n"@
}

/// The row of the last node with this id among the first `n`, if any: later
/// nodes with the same id take the place of earlier ones.
pub open spec fn last_row_of(nodes: Seq<TimelineNodeView>, id: Seq<char>, n: int) -> Option<int>
    decreases n,
{
    if n <= 0 || n > nodes.len() {
        None
    } else if nodes[n - 1].id == id {
        Some(n - 1)
    } else {
        last_row_of(nodes, id, n - 1)
    }
}

/// The curve of an edge whose two ends are drawn.
pub open spec fn edge_curve(nodes: Seq<TimelineNodeView>, e: TimelineEdgeView) -> Seq<char> {
    match (last_row_of(nodes, e.source, nodes.len() as int), last_row_of(nodes, e.target, nodes.len() as int)) {
        (Some(a), Some(b)) => {
            let x1 = node_x(nodes[a].lane as int);
            let y1 = node_y(a);
            let x2 = node_x(nodes[b].lane as int);
            let y2 = node_y(b);
            let cy = (y1 + y2) / 2;
            "  <path d=\"M "@ + num(x1) + " "@ + num(y1) + " C "@ + num(x1) + " "@ + num(cy) + ", "@
                + num(x2) + " "@ + num(cy) + ", "@ + num(x2) + " "@ + num(y2)
                + "\" fill=\"none\" stroke=\"#64748b\" stroke-width=\"2\"/>\n"@
        },
        _ => Seq::empty(),
    }
}

/// The SVG rendering of the whole timeline.
pub open spec fn svg_picture(
    dims: Seq<TimelineDimensionView>,
    nodes: Seq<TimelineNodeView>,
    edges: Seq<TimelineEdgeView>,
) -> Seq<char> {
    let w = svg_width(dims.len() as int);
    let h = svg_height(nodes.len() as int);
    svg_header(w, h) + concat_upto(dims.len() as int, |i: int| lane_column(i, dims[i], h))
        + concat_upto(nodes.len() as int, |i: int| node_group(i, nodes[i])) + concat_map(
        edges,
        |e: TimelineEdgeView| edge_curve(nodes, e),
    ) + "</svg>\n"@
}

/// Node counts and lanes for which every node coordinate fits in a `usize`.
pub open spec fn svg_nodes_in_range(nodes: Seq<TimelineNodeView>) -> bool {
    &&& (nodes.len() + 3) * 140 <= usize::MAX
    &&& forall|k: int| 0 <= k < nodes.len() ==> (#[trigger] nodes[k]).lane * 180 + 200 <= usize::MAX
}

/// Sizes for which every coordinate of the picture fits in a `usize`.
pub open spec fn svg_in_range(dims: Seq<TimelineDimensionView>, nodes: Seq<TimelineNodeView>) -> bool {
    &&& dims.len() * 180 + 400 <= usize::MAX
    &&& svg_nodes_in_range(nodes)
}

fn header_text(w: usize, h: usize) -> (r: String)
    ensures
        r@ == svg_header(w as int, h as int),
{
    let ws = usize_to_decimal(w);
    let hs = usize_to_decimal(h);
    let mut out = String::from_str("<svg xmlns=\"http://www.w3.org/2000/svg\" viewBox=\"0 0 ");
    out.append(ws.as_str());
    out.append(" ");
    out.append(hs.as_str());
    out.append("\" width=\"");
    out.append(ws.as_str());
    out.append("\" height=\"");
    out.append(hs.as_str());
    out.append(
        "\" style=\"background:#0f172a;font-family:-apple-system,BlinkMacSystemFont,'Segoe UI',Roboto,sans-serif;\">\n",
    );
    out.append("  <defs>\n");
    out.append("    <linearGradient id=\"laneGrad\" x1=\"0%\" y1=\"0%\" x2=\"0%\" y2=\"100%\">\n");
    out.append("      <stop offset=\"0%\" stop-color=\"#1e293b\" stop-opacity=\"0.6\"/>\n");
    out.append("      <stop offset=\"100%\" stop-color=\"#0f172a\" stop-opacity=\"0.8\"/>\n");
    out.append("    </linearGradient>\n");
    out.append("  </defs>\n\n");
    out
}

fn lane_column_text(i: usize, d: &crate::timeline::graph::TimelineDimension, h: usize) -> (r: String)
    requires
        i * 180 + 400 <= usize::MAX,
        400 <= h,
    ensures
        r@ == lane_column(i as int, d@, h as int),
{
    let x = 60 + i * 180;
    let xs = usize_to_decimal(x);
    let hs = usize_to_decimal(h - 60);
    let x2 = usize_to_decimal(x + 80);
    let name = escape_xml(d.name.as_str());
    let mut out = String::from_str("  <rect x=\"");
    out.append(xs.as_str());
    out.append("\" y=\"30\" width=\"160\" height=\"");
    out.append(hs.as_str());
    out.append("\" rx=\"8\" fill=\"url(#laneGrad)\" stroke=\"#334155\" stroke-width=\"1\"/>\n");
    out.append("  <text x=\"");
    out.append(x2.as_str());
    out.append(
        "\" y=\"54\" fill=\"#38bdf8\" font-size=\"14\" font-weight=\"bold\" text-anchor=\"middle\">",
    );
    out.append(name.as_str());
    if d.is_active {
        out.append(" *");
    } else {
        out.append("");
    }
    out.append("</text>\n");
    out
}

fn colors(t: TimelineNodeType) -> (r: (&'static str, &'static str))
    ensures
        r.0@ == fill_color(t),
        r.1@ == stroke_color(t),
{
    match t {
        TimelineNodeType::Root => ("#eab308", "#ca8a04"),
        TimelineNodeType::ForkPoint => ("#f59e0b", "#d97706"),
        TimelineNodeType::Merge => ("#10b981", "#059669"),
        TimelineNodeType::Convergence => ("#a855f7", "#9333ea"),
        TimelineNodeType::DirtyWorkspace => ("#f43f5e", "#e11d48"),
        TimelineNodeType::Commit => ("#38bdf8", "#0284c7"),
    }
}

fn append_num(out: &mut String, n: usize)
    ensures
        final(out)@ == old(out)@ + decimal(n as nat),
{
    let s = usize_to_decimal(n);
    out.append(s.as_str());
}

fn marker_text(t: TimelineNodeType, x: usize, y: usize) -> (r: String)
    requires
        x >= 10 && y >= 12,
        x + 10 <= usize::MAX,
        y + 12 <= usize::MAX,
    ensures
        r@ == marker(t, x as int, y as int),
{
    let (fill, stroke) = colors(t);
    let mut paint = String::from_str("\" fill=\"");
    paint.append(fill);
    paint.append("\" stroke=\"");
    paint.append(stroke);
    paint.append("\" stroke-width=\"2\"/>\n");
    let mut out;
    match t {
        TimelineNodeType::ForkPoint => {
            out = String::from_str("    <polygon points=\"");
            append_num(&mut out, x);
            out.append(",");
            append_num(&mut out, y - 10);
            out.append(" ");
            append_num(&mut out, x + 10);
            out.append(",");
            append_num(&mut out, y);
            out.append(" ");
            append_num(&mut out, x);
            out.append(",");
            append_num(&mut out, y + 10);
            out.append(" ");
            append_num(&mut out, x - 10);
            out.append(",");
            append_num(&mut out, y);
        },
        TimelineNodeType::Merge | TimelineNodeType::Convergence => {
            out = String::from_str("    <polygon points=\"");
            append_num(&mut out, x - 10);
            out.append(",");
            append_num(&mut out, y - 6);
            out.append(" ");
            append_num(&mut out, x);
            out.append(",");
            append_num(&mut out, y - 12);
            out.append(" ");
            append_num(&mut out, x + 10);
            out.append(",");
            append_num(&mut out, y - 6);
            out.append(" ");
            append_num(&mut out, x + 10);
            out.append(",");
            append_num(&mut out, y + 6);
            out.append(" ");
            append_num(&mut out, x);
            out.append(",");
            append_num(&mut out, y + 12);
            out.append(" ");
            append_num(&mut out, x - 10);
            out.append(",");
            append_num(&mut out, y + 6);
        },
        TimelineNodeType::DirtyWorkspace => {
            out = String::from_str("    <rect x=\"");
            append_num(&mut out, x - 9);
            out.append("\" y=\"");
            append_num(&mut out, y - 9);
            out.append("\" width=\"18\" height=\"18\" rx=\"3");
        },
        _ => {
            out = String::from_str("    <circle cx=\"");
            append_num(&mut out, x);
            out.append("\" cy=\"");
            append_num(&mut out, y);
            out.append("\" r=\"9");
        },
    }
    out.append(paint.as_str());
    out
}

fn node_group_text(idx: usize, n: &TimelineNode) -> (r: String)
    requires
        (idx + 3) * 70 <= usize::MAX,
        n.lane * 180 + 200 <= usize::MAX,
    ensures
        r@ == node_group(idx as int, n@),
{
    let x = 60 + n.lane * 180 + 80;
    let y = 90 + idx * 60;
    let mut out = String::from_str("  <g id=\"node_");
    out.append(n.short_id.as_str());
    out.append("\">\n");
    out.append("    <title>Commit: ");
    out.append(n.id.as_str());
    out.append("&#10;Author: ");
    let a = escape_xml(n.author.as_str());
    out.append(a.as_str());
    out.append("&#10;Summary: ");
    let s = escape_xml(n.summary.as_str());
    out.append(s.as_str());
    out.append("</title>\n");
    let m = marker_text(n.node_type, x, y);
    out.append(m.as_str());
    out.append("    <text x=\"");
    append_num(&mut out, x + 16);
    out.append("\" y=\"");
    append_num(&mut out, y + 4);
    out.append("\" fill=\"#94a3b8\" font-size=\"11\" font-family=\"monospace\">");
    out.append(n.short_id.as_str());
    out.append("</text>\n");
    out.append("  </g>\n");
    out
}

fn last_row(nodes: &Vec<TimelineNode>, id: &str) -> (r: Option<usize>)
    ensures
        match r {
            Some(a) => a < nodes@.len() && last_row_of(node_views(nodes@), id@, nodes@.len() as int)
                == Some(a as int),
            None => last_row_of(node_views(nodes@), id@, nodes@.len() as int) is None,
        },
{
    let ghost nv = node_views(nodes@);
    let mut n: usize = nodes.len();
    while n > 0
        invariant
            n <= nodes.len(),
            nv == node_views(nodes@),
            last_row_of(nv, id@, nodes@.len() as int) == last_row_of(nv, id@, n as int),
        decreases n,
    {
        assert(nv[n - 1] == nodes@[n - 1]@);
        if str_eq(nodes[n - 1].id.as_str(), id) {
            return Some(n - 1);
        }
        n = n - 1;
    }
    None
}

fn edge_curve_text(nodes: &Vec<TimelineNode>, e: &TimelineEdge) -> (r: String)
    requires
        svg_nodes_in_range(node_views(nodes@)),
    ensures
        r@ == edge_curve(node_views(nodes@), e@),
{
    let ghost nv = node_views(nodes@);
    let src = last_row(nodes, e.source.as_str());
    let dst = last_row(nodes, e.target.as_str());
    let mut out = String::new();
    match (src, dst) {
        (Some(a), Some(b)) => {
            assert(nv[a as int] == nodes@[a as int]@);
            assert(nv[b as int] == nodes@[b as int]@);
            let x1 = 60 + nodes[a].lane * 180 + 80;
            let y1 = 90 + a * 60;
            let x2 = 60 + nodes[b].lane * 180 + 80;
            let y2 = 90 + b * 60;
            let cy = (y1 + y2) / 2;
            out.append("  <path d=\"M ");
            append_num(&mut out, x1);
            out.append(" ");
            append_num(&mut out, y1);
            out.append(" C ");
            append_num(&mut out, x1);
            out.append(" ");
            append_num(&mut out, cy);
            out.append(", ");
            append_num(&mut out, x2);
            out.append(" ");
            append_num(&mut out, cy);
            out.append(", ");
            append_num(&mut out, x2);
            out.append(" ");
            append_num(&mut out, y2);
            out.append("\" fill=\"none\" stroke=\"#64748b\" stroke-width=\"2\"/>\n");
        },
        _ => {},
    }
    out
}

/// Renders the timeline as SVG: the dimension columns, a marker for every
/// commit node in its lane and row, and a curve for every edge whose two
/// ends are drawn.
pub fn render_svg(graph: &MultiverseTimelineGraph) -> (r: String)
    requires
        svg_in_range(dim_views(graph.dimensions@), node_views(graph.nodes@)),
    ensures
        r@ == svg_picture(
            dim_views(graph.dimensions@),
            node_views(graph.nodes@),
            edge_views(graph.edges@),
        ),
{
    let ghost dv = dim_views(graph.dimensions@);
    let ghost nv = node_views(graph.nodes@);
    let ghost ev = edge_views(graph.edges@);
    let num_lanes = if graph.dimensions.len() >= 1 {
        graph.dimensions.len()
    } else {
        1
    };
    let num_nodes = if graph.nodes.len() >= 1 {
        graph.nodes.len()
    } else {
        1
    };
    let w0 = num_lanes * 180 + 160;
    let width = if w0 >= 800 {
        w0
    } else {
        800
    };
    let h0 = (num_nodes + 2) * 70;
    let height = if h0 >= 400 {
        h0
    } else {
        400
    };
    assert(width == svg_width(dv.len() as int));
    assert(height == svg_height(nv.len() as int));
    let mut out = header_text(width, height);
    let ghost p0 = out@;
    let ghost fl = |i: int| lane_column(i, dv[i], height as int);
    let mut i: usize = 0;
    while i < graph.dimensions.len()
        invariant
            i <= graph.dimensions.len(),
            dv == dim_views(graph.dimensions@),
            svg_in_range(dv, nv),
            height >= 400,
            fl == (|i: int| lane_column(i, dv[i], height as int)),
            out@ == p0 + concat_upto(i as int, fl),
        decreases graph.dimensions.len() - i,
    {
        assert(dv[i as int] == graph.dimensions@[i as int]@);
        let c = lane_column_text(i, &graph.dimensions[i], height);
        out.append(c.as_str());
        i = i + 1;
    }
    let ghost p1 = out@;
    let ghost fnode = |i: int| node_group(i, nv[i]);
    let mut k: usize = 0;
    while k < graph.nodes.len()
        invariant
            k <= graph.nodes.len(),
            nv == node_views(graph.nodes@),
            svg_in_range(dv, nv),
            fnode == (|i: int| node_group(i, nv[i])),
            out@ == p1 + concat_upto(k as int, fnode),
        decreases graph.nodes.len() - k,
    {
        assert(nv[k as int] == graph.nodes@[k as int]@);
        assert(nv[k as int].lane * 180 + 200 <= usize::MAX);
        let g = node_group_text(k, &graph.nodes[k]);
        out.append(g.as_str());
        k = k + 1;
    }
    let ghost p2 = out@;
    let ghost fe = |e: TimelineEdgeView| edge_curve(nv, e);
    let mut j: usize = 0;
    proof {
        assert(ev.take(0) =~= Seq::<TimelineEdgeView>::empty());
    }
    while j < graph.edges.len()
        invariant
            j <= graph.edges.len(),
            ev == edge_views(graph.edges@),
            nv == node_views(graph.nodes@),
            svg_in_range(dv, nv),
            fe == (|e: TimelineEdgeView| edge_curve(nv, e)),
            out@ == p2 + concat_map(ev.take(j as int), fe),
        decreases graph.edges.len() - j,
    {
        let e = &graph.edges[j];
        proof {
            lemma_concat_map_step(ev, j as int, fe);
            assert(ev[j as int] == e@);
        }
        let c = edge_curve_text(&graph.nodes, e);
        out.append(c.as_str());
        j = j + 1;
    }
    proof {
        assert(ev.take(graph.edges.len() as int) =~= ev);
    }
    out.append("</svg>\n");
    out
}

} // verus!
