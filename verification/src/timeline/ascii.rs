//! The timeline as terminal text.
use vstd::prelude::*;
use crate::text::{
    byte_prefix, cuts_at, concat_map, join_strings, joined, lemma_concat_map_step, pad_right, pad_to,
    prefix_in_bytes, str_eq, strs_view,
};
use crate::timeline::graph::{
    dim_views, node_views, MultiverseTimelineGraph, TimelineDimensionView, TimelineNodeType,
    TimelineNodeView,
};

verus! {

/// The mark of a node in the terminal graph.
pub open spec fn glyph(t: TimelineNodeType) -> Seq<char> {
    match t {
        TimelineNodeType::Root => "*"@,
        TimelineNodeType::ForkPoint => "◆"@,
        TimelineNodeType::Merge => "◈"@,
        TimelineNodeType::Convergence => "◉"@,
        TimelineNodeType::DirtyWorkspace => "○"@,
        TimelineNodeType::Commit => "*"@,
    }
}

fn glyph_of(t: TimelineNodeType) -> (r: &'static str)
    ensures
        r@ == glyph(t),
{
    match t {
        TimelineNodeType::Root => "*",
        TimelineNodeType::ForkPoint => "◆",
        TimelineNodeType::Merge => "◈",
        TimelineNodeType::Convergence => "◉",
        TimelineNodeType::DirtyWorkspace => "○",
        TimelineNodeType::Commit => "*",
    }
}

/// `| ` once per lane to the left of the node's lane, then the node's mark.
pub open spec fn lane_marks(lane: nat, g: Seq<char>) -> Seq<char>
    decreases lane,
{
    if lane == 0 {
        g
    } else {
        "| "@ + lane_marks((lane - 1) as nat, g)
    }
}

/// The dimensions whose head a node is, in parentheses, or nothing.
pub open spec fn heads_info(n: TimelineNodeView) -> Seq<char> {
    if n.head_of_dimensions.len() > 0 {
        "("@ + joined(n.head_of_dimensions, ", "@) + ") "@
    } else {
        Seq::empty()
    }
}

/// The line of one node.
pub open spec fn node_line(n: TimelineNodeView) -> Seq<char> {
    pad_right(lane_marks(n.lane as nat, glyph(n.node_type)), 4) + " "@ + heads_info(n) + pad_right(
        n.short_id,
        7,
    ) + " "@ + n.summary + " - "@ + n.author + "\n"@
}

/// A dimension's head, shortened, or `unborn`.
pub open spec fn head_text(d: TimelineDimensionView) -> Seq<char> {
    match d.head_commit {
        Some(h) => byte_prefix(h, 7),
        None => "unborn"@,
    }
}

/// Whether some node is the head of the named dimension.
pub open spec fn tagged(nodes: Seq<TimelineNodeView>, name: Seq<char>) -> bool {
    exists|i: int, j: int|
        0 <= i < nodes.len() && 0 <= j < nodes[i].head_of_dimensions.len()
            && #[trigger] nodes[i].head_of_dimensions[j] == name
}

/// The line of a dimension that no node carries as a head.
pub open spec fn untagged_line(nodes: Seq<TimelineNodeView>, d: TimelineDimensionView) -> Seq<char> {
    if tagged(nodes, d.name) {
        Seq::empty()
    } else {
        "* ("@ + d.name + ") [head: "@ + head_text(d) + "]\n"@
    }
}

/// The terminal rendering of the whole timeline.
pub open spec fn terminal_graph(nodes: Seq<TimelineNodeView>, dims: Seq<TimelineDimensionView>) -> Seq<
    char,
> {
    if nodes.len() == 0 {
        "Multiverse Timeline Graph:\n"@ + concat_map(
            dims,
            |d: TimelineDimensionView| "* ("@ + d.name + ") [unborn]\n"@,
        )
    } else {
        "Multiverse Timeline Graph:\n"@ + concat_map(nodes, |n: TimelineNodeView| node_line(n))
            + concat_map(dims, |d: TimelineDimensionView| untagged_line(nodes, d))
    }
}

/// The heads of the timeline's dimensions can be cut after their first
/// seven bytes: each is shorter, or its seventh byte ends a character.
pub open spec fn heads_cut_cleanly(dims: Seq<TimelineDimensionView>) -> bool {
    forall|k: int| 0 <= k < dims.len() ==> ((#[trigger] dims[k]).head_commit matches Some(h) ==> cuts_at(h, 7))
}

fn lane_text(lane: usize, g: &str) -> (r: String)
    ensures
        r@ == lane_marks(lane as nat, g@),
{
    let mut out = String::new();
    let mut i: usize = 0;
    while i < lane
        invariant
            i <= lane,
            lane_marks(lane as nat, g@) == out@ + lane_marks((lane - i) as nat, g@),
        decreases lane - i,
    {
        out.append("| ");
        proof {
            assert(lane_marks((lane - i) as nat, g@) == "| "@ + lane_marks((lane - i - 1) as nat, g@));
        }
        i = i + 1;
    }
    out.append(g);
    out
}

fn is_tagged(nodes: &Vec<crate::timeline::graph::TimelineNode>, name: &str) -> (r: bool)
    ensures
        r == tagged(node_views(nodes@), name@),
{
    let ghost nv = node_views(nodes@);
    let mut i: usize = 0;
    while i < nodes.len()
        invariant
            i <= nodes.len(),
            nv == node_views(nodes@),
            forall|a: int, b: int|
                0 <= a < i && 0 <= b < nv[a].head_of_dimensions.len() ==> #[trigger] nv[a].head_of_dimensions[b]
                    != name@,
        decreases nodes.len() - i,
    {
        let heads = &nodes[i].head_of_dimensions;
        assert(nv[i as int].head_of_dimensions == strs_view(heads@));
        let mut j: usize = 0;
        while j < heads.len()
            invariant
                j <= heads.len(),
                i < nodes.len(),
                nv == node_views(nodes@),
                nv[i as int].head_of_dimensions == strs_view(heads@),
                forall|b: int| 0 <= b < j ==> #[trigger] nv[i as int].head_of_dimensions[b] != name@,
                forall|a: int, b: int|
                    0 <= a < i && 0 <= b < nv[a].head_of_dimensions.len() ==> #[trigger] nv[a].head_of_dimensions[b]
                        != name@,
            decreases heads.len() - j,
        {
            if str_eq(heads[j].as_str(), name) {
                assert(nv[i as int].head_of_dimensions[j as int] == name@);
                return true;
            }
            j = j + 1;
        }
        i = i + 1;
    }
    false
}

fn node_line_text(node: &crate::timeline::graph::TimelineNode) -> (r: String)
    ensures
        r@ == node_line(node@),
{
    let lanes = lane_text(node.lane, glyph_of(node.node_type));
    let padded = pad_to(lanes.as_str(), 4);
    let mut out = String::new();
    out.append(padded.as_str());
    out.append(" ");
    let mut heads = String::new();
    if node.head_of_dimensions.len() > 0 {
        heads.append("(");
        let joined_heads = join_strings(&node.head_of_dimensions, ", ");
        heads.append(joined_heads.as_str());
        heads.append(") ");
    }
    proof {
        assert(heads@ == heads_info(node@));
    }
    out.append(heads.as_str());
    let sid = pad_to(node.short_id.as_str(), 7);
    out.append(sid.as_str());
    out.append(" ");
    out.append(node.summary.as_str());
    out.append(" - ");
    out.append(node.author.as_str());
    out.append("\n");
    out
}

/// Renders the timeline for the terminal: one line per commit node, in
/// order, then a line for each dimension that no node is the head of.
pub fn render_terminal_graph(graph: &MultiverseTimelineGraph) -> (r: String)
    requires
        heads_cut_cleanly(dim_views(graph.dimensions@)),
    ensures
        r@ == terminal_graph(node_views(graph.nodes@), dim_views(graph.dimensions@)),
{
    let ghost nv = node_views(graph.nodes@);
    let ghost dv = dim_views(graph.dimensions@);
    let mut out = String::from_str("Multiverse Timeline Graph:\n");
    if graph.nodes.len() == 0 {
        let ghost f = |d: TimelineDimensionView| "* ("@ + d.name + ") [unborn]\n"@;
        let mut k: usize = 0;
        proof {
            assert(dv.take(0) =~= Seq::<TimelineDimensionView>::empty());
        }
        while k < graph.dimensions.len()
            invariant
                k <= graph.dimensions.len(),
                dv == dim_views(graph.dimensions@),
                f == (|d: TimelineDimensionView| "* ("@ + d.name + ") [unborn]\n"@),
                out@ == "Multiverse Timeline Graph:\n"@ + concat_map(dv.take(k as int), f),
            decreases graph.dimensions.len() - k,
        {
            proof {
                lemma_concat_map_step(dv, k as int, f);
                assert(dv[k as int] == graph.dimensions@[k as int]@);
            }
            out.append("* (");
            out.append(graph.dimensions[k].name.as_str());
            out.append(") [unborn]\n");
            k = k + 1;
        }
        proof {
            assert(dv.take(graph.dimensions.len() as int) =~= dv);
        }
        return out;
    }
    let ghost fl = |n: TimelineNodeView| node_line(n);
    let mut i: usize = 0;
    proof {
        assert(nv.take(0) =~= Seq::<TimelineNodeView>::empty());
    }
    while i < graph.nodes.len()
        invariant
            i <= graph.nodes.len(),
            nv == node_views(graph.nodes@),
            fl == (|n: TimelineNodeView| node_line(n)),
            out@ == "Multiverse Timeline Graph:\n"@ + concat_map(nv.take(i as int), fl),
        decreases graph.nodes.len() - i,
    {
        let node = &graph.nodes[i];
        proof {
            lemma_concat_map_step(nv, i as int, fl);
            assert(nv[i as int] == node@);
        }
        let line = node_line_text(node);
        out.append(line.as_str());
        i = i + 1;
    }
    proof {
        assert(nv.take(graph.nodes.len() as int) =~= nv);
    }
    let ghost mid = out@;
    let ghost fd = |d: TimelineDimensionView| untagged_line(nv, d);
    let mut k: usize = 0;
    proof {
        assert(dv.take(0) =~= Seq::<TimelineDimensionView>::empty());
    }
    while k < graph.dimensions.len()
        invariant
            k <= graph.dimensions.len(),
            dv == dim_views(graph.dimensions@),
            nv == node_views(graph.nodes@),
            heads_cut_cleanly(dv),
            fd == (|d: TimelineDimensionView| untagged_line(nv, d)),
            out@ == mid + concat_map(dv.take(k as int), fd),
        decreases graph.dimensions.len() - k,
    {
        let dim = &graph.dimensions[k];
        proof {
            lemma_concat_map_step(dv, k as int, fd);
            assert(dv[k as int] == dim@);
        }
        let ghost before = out@;
        if !is_tagged(&graph.nodes, dim.name.as_str()) {
            let head = match &dim.head_commit {
                Some(h) => prefix_in_bytes(h.as_str(), 7),
                None => String::from_str("unborn"),
            };
            out.append("* (");
            out.append(dim.name.as_str());
            out.append(") [head: ");
            out.append(head.as_str());
            out.append("]\n");
        }
        proof {
            assert(out@ =~= before + untagged_line(nv, dim@));
        }
        k = k + 1;
    }
    proof {
        assert(dv.take(graph.dimensions.len() as int) =~= dv);
    }
    out
}

/// Whether a node belongs to the timeline of a dimension: it is that
/// dimension's head or reachable from it.
pub open spec fn in_dimension(n: TimelineNodeView, dimension: Seq<char>) -> bool {
    n.head_of_dimensions.contains(dimension) || n.reachable_dimensions.contains(dimension)
}

/// The terminal rendering of one dimension's timeline.
pub open spec fn single_dimension(nodes: Seq<TimelineNodeView>, dimension: Seq<char>) -> Seq<char> {
    let header = "Timeline Graph for "@ + dimension + ":\n"@;
    let matching = crate::select::select(nodes, |n: TimelineNodeView| in_dimension(n, dimension));
    if matching.len() == 0 {
        header + "* ("@ + dimension + ")\n"@
    } else {
        header + concat_map(
            matching,
            |n: TimelineNodeView| "* ("@ + dimension + ") "@ + n.short_id + " "@ + n.summary + "\n"@,
        )
    }
}

fn contains_str(v: &Vec<String>, s: &str) -> (r: bool)
    ensures
        r == strs_view(v@).contains(s@),
{
    let mut i: usize = 0;
    while i < v.len()
        invariant
            i <= v.len(),
            forall|k: int| 0 <= k < i ==> strs_view(v@)[k] != s@,
        decreases v.len() - i,
    {
        if str_eq(v[i].as_str(), s) {
            assert(strs_view(v@)[i as int] == s@);
            return true;
        }
        i = i + 1;
    }
    false
}

/// Renders the timeline of one dimension: one line per commit node that
/// belongs to it, or a single line when there is none.
pub fn render_single_dimension(graph: &MultiverseTimelineGraph, dimension: &str) -> (r: String)
    ensures
        r@ == single_dimension(node_views(graph.nodes@), dimension@),
{
    let ghost nv = node_views(graph.nodes@);
    let ghost p = |n: TimelineNodeView| in_dimension(n, dimension@);
    let ghost f = |n: TimelineNodeView|
        "* ("@ + dimension@ + ") "@ + n.short_id + " "@ + n.summary + "\n"@;
    let mut header = String::from_str("Timeline Graph for ");
    header.append(dimension);
    header.append(":\n");
    let mut body = String::new();
    let mut count: usize = 0;
    let mut i: usize = 0;
    proof {
        assert(nv.take(0) =~= Seq::<TimelineNodeView>::empty());
    }
    while i < graph.nodes.len()
        invariant
            i <= graph.nodes.len(),
            nv == node_views(graph.nodes@),
            p == (|n: TimelineNodeView| in_dimension(n, dimension@)),
            f == (|n: TimelineNodeView|
                "* ("@ + dimension@ + ") "@ + n.short_id + " "@ + n.summary + "\n"@),
            count == crate::select::select(nv.take(i as int), p).len(),
            count <= i,
            body@ == concat_map(crate::select::select(nv.take(i as int), p), f),
        decreases graph.nodes.len() - i,
    {
        let n = &graph.nodes[i];
        proof {
            crate::select::lemma_select_take_step(nv, i as int, p);
            assert(nv[i as int] == n@);
        }
        if contains_str(&n.head_of_dimensions, dimension) || contains_str(
            &n.reachable_dimensions,
            dimension,
        ) {
            let ghost sel = crate::select::select(nv.take(i as int), p);
            body.append("* (");
            body.append(dimension);
            body.append(") ");
            body.append(n.short_id.as_str());
            body.append(" ");
            body.append(n.summary.as_str());
            body.append("\n");
            proof {
                assert(sel.push(n@).drop_last() =~= sel);
            }
            count = count + 1;
        }
        i = i + 1;
    }
    proof {
        assert(nv.take(graph.nodes.len() as int) =~= nv);
    }
    if count == 0 {
        header.append("* (");
        header.append(dimension);
        header.append(")\n");
        header
    } else {
        header.append(body.as_str());
        header
    }
}

} // verus!
