//! Assembling the timeline from what was read of a repository: its
//! dimensions with their metadata, the fork bases found for them, the
//! commits reachable from their heads, and the entangled pairs.
use vstd::prelude::*;
use crate::clock::{representable, rfc3339_or_now, rfc3339_text};
use crate::text::{
    all_ascii, clone_opt_string, clone_strings, first_line, first_line_trimmed, has_infix, opt_eq_str,
    opt_str_view, opt_view, short7, short_id, str_contains, str_eq, strs_view, trimmed,
};
use crate::timeline::ancestry::{dim_named, dim_named_from};
use crate::timeline::graph::{
    dim_views, edge_views, MultiverseTimelineGraph, TimelineDimension, TimelineDimensionView,
    TimelineEdge, TimelineEdgeType, TimelineEdgeView, TimelineGraphBuilder, TimelineNode,
    TimelineNodeType, TimelineNodeView,
};

verus! {

/// What the metadata file of a dimension holds that the timeline shows.
#[derive(Debug, Clone)]
pub struct DimensionMeta {
    pub parent: Option<String>,
    pub creator: String,
    pub created_at: String,
}

pub struct DimensionMetaView {
    pub parent: Option<Seq<char>>,
    pub creator: Seq<char>,
    pub created_at: Seq<char>,
}

impl View for DimensionMeta {
    type V = DimensionMetaView;

    open spec fn view(&self) -> DimensionMetaView {
        DimensionMetaView {
            parent: opt_view(self.parent),
            creator: self.creator@,
            created_at: self.created_at@,
        }
    }
}

/// A dimension as the repository lists it, with its metadata where that
/// could be read and the head commit found for it.
#[derive(Debug, Clone)]
pub struct DimensionEntry {
    pub name: String,
    pub parent: Option<String>,
    pub status: String,
    pub meta: Option<DimensionMeta>,
    pub head_commit: Option<String>,
}

pub struct DimensionEntryView {
    pub name: Seq<char>,
    pub parent: Option<Seq<char>>,
    pub status: Seq<char>,
    pub meta: Option<DimensionMetaView>,
    pub head_commit: Option<Seq<char>>,
}

impl View for DimensionEntry {
    type V = DimensionEntryView;

    open spec fn view(&self) -> DimensionEntryView {
        DimensionEntryView {
            name: self.name@,
            parent: opt_view(self.parent),
            status: self.status@,
            meta: match self.meta {
                Some(m) => Some(m@),
                None => None,
            },
            head_commit: opt_view(self.head_commit),
        }
    }
}

/// A commit read from the store: its id, its parents' ids, its author, the
/// author's time in seconds since the epoch, and its message.
#[derive(Debug, Clone)]
pub struct CommitEntry {
    pub id: String,
    pub parents: Vec<String>,
    pub author: String,
    pub time: i64,
    pub message: String,
}

pub struct CommitEntryView {
    pub id: Seq<char>,
    pub parents: Seq<Seq<char>>,
    pub author: Seq<char>,
    pub time: i64,
    pub message: Seq<char>,
}

impl View for CommitEntry {
    type V = CommitEntryView;

    open spec fn view(&self) -> CommitEntryView {
        CommitEntryView {
            id: self.id@,
            parents: strs_view(self.parents@),
            author: self.author@,
            time: self.time,
            message: self.message@,
        }
    }
}

/// Two dimensions bound by an entanglement rule.
#[derive(Debug, Clone)]
pub struct EntangledPair {
    pub dim1: String,
    pub dim2: String,
}

pub struct EntangledPairView {
    pub dim1: Seq<char>,
    pub dim2: Seq<char>,
}

impl View for EntangledPair {
    type V = EntangledPairView;

    open spec fn view(&self) -> EntangledPairView {
        EntangledPairView { dim1: self.dim1@, dim2: self.dim2@ }
    }
}

pub open spec fn entry_views(v: Seq<DimensionEntry>) -> Seq<DimensionEntryView> {
    v.map_values(|e: DimensionEntry| e@)
}

pub open spec fn commit_views(v: Seq<CommitEntry>) -> Seq<CommitEntryView> {
    v.map_values(|c: CommitEntry| c@)
}

pub open spec fn pair_views(v: Seq<EntangledPair>) -> Seq<EntangledPairView> {
    v.map_values(|p: EntangledPair| p@)
}

// ---------------------------------------------------------------------------
// Dimensions
// ---------------------------------------------------------------------------

/// The mainline, always first and in lane 0.
pub open spec fn mainline_dim(
    active: Seq<char>,
    created_at: Option<Seq<char>>,
    head: Option<Seq<char>>,
) -> TimelineDimensionView {
    TimelineDimensionView {
        name: "mainline"@,
        parent: None,
        creator: "system"@,
        created_at: match created_at {
            Some(c) => c,
            None => Seq::empty(),
        },
        fork_base_commit: None,
        head_commit: head,
        status: "clean"@,
        is_active: active == "mainline"@,
        lane: 0,
        dirty_files_count: 0,
    }
}

/// Whether a listed dimension gets a place of its own: the mainline has
/// one already, and a filter keeps only the dimension it names.
pub open spec fn keeps(e: DimensionEntryView, filter: Option<Seq<char>>) -> bool {
    e.name != "mainline"@ && (filter matches Some(f) ==> e.name == f)
}

/// The parent in the metadata, else the one in the listing.
pub open spec fn entry_parent(e: DimensionEntryView) -> Option<Seq<char>> {
    match e.meta {
        Some(m) => match m.parent {
            Some(p) => Some(p),
            None => e.parent,
        },
        None => e.parent,
    }
}

/// A listed dimension placed in `lane`.
pub open spec fn entry_dim(e: DimensionEntryView, active: Seq<char>, lane: usize) -> TimelineDimensionView {
    TimelineDimensionView {
        name: e.name,
        parent: entry_parent(e),
        creator: match e.meta {
            Some(m) => m.creator,
            None => "user"@,
        },
        created_at: match e.meta {
            Some(m) => m.created_at,
            None => Seq::empty(),
        },
        fork_base_commit: None,
        head_commit: e.head_commit,
        status: e.status,
        is_active: active == e.name,
        lane,
        dirty_files_count: 0,
    }
}

/// The dimensions of the timeline: the mainline, then each listed
/// dimension that is kept, in order, each in the next lane.
pub open spec fn timeline_dims(
    active: Seq<char>,
    created_at: Option<Seq<char>>,
    head: Option<Seq<char>>,
    entries: Seq<DimensionEntryView>,
    filter: Option<Seq<char>>,
) -> Seq<TimelineDimensionView>
    decreases entries.len(),
{
    if entries.len() == 0 {
        seq![mainline_dim(active, created_at, head)]
    } else {
        let prev = timeline_dims(active, created_at, head, entries.drop_last(), filter);
        if keeps(entries.last(), filter) {
            prev.push(entry_dim(entries.last(), active, prev.len() as usize))
        } else {
            prev
        }
    }
}

proof fn lemma_timeline_dims_len(
    active: Seq<char>,
    created_at: Option<Seq<char>>,
    head: Option<Seq<char>>,
    entries: Seq<DimensionEntryView>,
    filter: Option<Seq<char>>,
)
    ensures
        1 <= timeline_dims(active, created_at, head, entries, filter).len() <= entries.len() + 1,
    decreases entries.len(),
{
    if entries.len() > 0 {
        lemma_timeline_dims_len(active, created_at, head, entries.drop_last(), filter);
    }
}

/// The layout of the timeline's dimensions: the mainline comes first,
/// without a parent; each dimension sits in the lane of its position; no
/// other dimension is the mainline; and with a filter, every other
/// dimension is the one it names.
pub proof fn lemma_timeline_dims_layout(
    active: Seq<char>,
    created_at: Option<Seq<char>>,
    head: Option<Seq<char>>,
    entries: Seq<DimensionEntryView>,
    filter: Option<Seq<char>>,
)
    requires
        entries.len() < usize::MAX,
    ensures
        ({
            let td = timeline_dims(active, created_at, head, entries, filter);
            &&& td.len() >= 1
            &&& td[0].name == "mainline"@
            &&& td[0].parent is None
            &&& forall|k: int| 0 <= k < td.len() ==> (#[trigger] td[k]).lane == k
            &&& forall|k: int| 1 <= k < td.len() ==> (#[trigger] td[k]).name != "mainline"@
            &&& forall|k: int|
                1 <= k < td.len() ==> (filter matches Some(f) ==> (#[trigger] td[k]).name == f)
        }),
    decreases entries.len(),
{
    lemma_timeline_dims_len(active, created_at, head, entries, filter);
    if entries.len() > 0 {
        let init = entries.drop_last();
        lemma_timeline_dims_layout(active, created_at, head, init, filter);
        lemma_timeline_dims_len(active, created_at, head, init, filter);
        let prev = timeline_dims(active, created_at, head, init, filter);
        let td = timeline_dims(active, created_at, head, entries, filter);
        if keeps(entries.last(), filter) {
            assert(td == prev.push(entry_dim(entries.last(), active, prev.len() as usize)));
            assert forall|k: int| 0 <= k < td.len() implies (#[trigger] td[k]).lane == k by {
                if k < prev.len() {
                    assert(td[k] == prev[k]);
                }
            }
            assert forall|k: int| 1 <= k < td.len() implies (#[trigger] td[k]).name != "mainline"@ by {
                if k < prev.len() {
                    assert(td[k] == prev[k]);
                }
            }
            assert forall|k: int|
                1 <= k < td.len() implies (filter matches Some(f) ==> (#[trigger] td[k]).name == f) by {
                if k < prev.len() {
                    assert(td[k] == prev[k]);
                }
            }
        }
    } else {
        reveal_strlit("mainline");
    }
}

fn entry_to_dim(e: &DimensionEntry, active: &str, lane: usize) -> (r: TimelineDimension)
    ensures
        r@ == entry_dim(e@, active@, lane),
{
    let (parent, creator, created_at) = match &e.meta {
        Some(m) => {
            let p = match &m.parent {
                Some(p) => Some(p.clone()),
                None => clone_opt_string(&e.parent),
            };
            (p, m.creator.clone(), m.created_at.clone())
        },
        None => (clone_opt_string(&e.parent), String::from_str("user"), String::new()),
    };
    TimelineDimension {
        name: e.name.clone(),
        parent,
        creator,
        created_at,
        fork_base_commit: None,
        head_commit: clone_opt_string(&e.head_commit),
        status: e.status.clone(),
        is_active: str_eq(active, e.name.as_str()),
        lane,
        dirty_files_count: 0,
    }
}

impl TimelineGraphBuilder {
    /// The dimensions of the timeline: the mainline first, in lane 0, then
    /// every other listed dimension that the filter keeps, in order, each in
    /// the next lane, with the parent, creator and creation time of its
    /// metadata where that was read.
    pub fn dimensions(
        active: &str,
        mainline_created_at: &Option<String>,
        mainline_head: &Option<String>,
        entries: &Vec<DimensionEntry>,
        filter: Option<&str>,
    ) -> (r: Vec<TimelineDimension>)
        requires
            entries@.len() < usize::MAX,
        ensures
            dim_views(r@) == timeline_dims(
                active@,
                opt_view(*mainline_created_at),
                opt_view(*mainline_head),
                entry_views(entries@),
                opt_str_view(filter),
            ),
    {
        let ghost ev = entry_views(entries@);
        let ghost ca = opt_view(*mainline_created_at);
        let ghost hd = opt_view(*mainline_head);
        let ghost fl = opt_str_view(filter);
        let created = match mainline_created_at {
            Some(c) => c.clone(),
            None => String::new(),
        };
        let mut out: Vec<TimelineDimension> = Vec::new();
        out.push(
            TimelineDimension {
                name: String::from_str("mainline"),
                parent: None,
                creator: String::from_str("system"),
                created_at: created,
                fork_base_commit: None,
                head_commit: clone_opt_string(mainline_head),
                status: String::from_str("clean"),
                is_active: str_eq(active, "mainline"),
                lane: 0,
                dirty_files_count: 0,
            },
        );
        proof {
            reveal_strlit("mainline");
            reveal_strlit("system");
            reveal_strlit("clean");
            assert(ev.take(0) =~= Seq::<DimensionEntryView>::empty());
            assert(dim_views(out@) =~= timeline_dims(active@, ca, hd, ev.take(0), fl));
        }
        let mut lane: usize = 1;
        let mut i: usize = 0;
        while i < entries.len()
            invariant
                i <= entries.len(),
                entries@.len() < usize::MAX,
                ev == entry_views(entries@),
                fl == opt_str_view(filter),
                dim_views(out@) == timeline_dims(active@, ca, hd, ev.take(i as int), fl),
                lane == out@.len(),
                lane <= i + 1,
            decreases entries.len() - i,
        {
            let e = &entries[i];
            let ghost prev = timeline_dims(active@, ca, hd, ev.take(i as int), fl);
            proof {
                assert(ev.take(i + 1).drop_last() =~= ev.take(i as int));
                assert(ev.take(i + 1).last() == e@);
            }
            let is_mainline = str_eq(e.name.as_str(), "mainline");
            let filtered_out = match filter {
                Some(f) => !str_eq(e.name.as_str(), f),
                None => false,
            };
            proof {
                reveal_strlit("mainline");
                assert(keeps(e@, fl) == (!is_mainline && !filtered_out));
            }
            if !is_mainline && !filtered_out {
                let d = entry_to_dim(e, active, lane);
                out.push(d);
                proof {
                    assert(dim_views(out@) =~= prev.push(entry_dim(e@, active@, prev.len() as usize)));
                }
                lane = lane + 1;
            }
            i = i + 1;
        }
        proof {
            assert(ev.take(entries.len() as int) =~= ev);
        }
        out
    }
}

// ---------------------------------------------------------------------------
// Fork bases
// ---------------------------------------------------------------------------

/// A dimension with the fork base found for it: only a dimension with a
/// parent takes one.
pub open spec fn with_base(d: TimelineDimensionView, base: Option<Seq<char>>) -> TimelineDimensionView {
    if d.parent is Some && base is Some {
        TimelineDimensionView { fork_base_commit: base, ..d }
    } else {
        d
    }
}

fn dim_with_base(d: &TimelineDimension, base: &Option<String>) -> (r: TimelineDimension)
    ensures
        r@ == with_base(d@, opt_view(*base)),
{
    let fork = if d.parent.is_some() && base.is_some() {
        clone_opt_string(base)
    } else {
        clone_opt_string(&d.fork_base_commit)
    };
    TimelineDimension {
        name: d.name.clone(),
        parent: clone_opt_string(&d.parent),
        creator: d.creator.clone(),
        created_at: d.created_at.clone(),
        fork_base_commit: fork,
        head_commit: clone_opt_string(&d.head_commit),
        status: d.status.clone(),
        is_active: d.is_active,
        lane: d.lane,
        dirty_files_count: d.dirty_files_count,
    }
}

impl TimelineGraphBuilder {
    /// The dimensions with their fork bases: `bases[k]` is the merge base of
    /// the `k`-th dimension's head with its parent's, where one was found,
    /// and it is kept for a dimension that has a parent.
    pub fn with_fork_bases(dims: &Vec<TimelineDimension>, bases: &Vec<Option<String>>) -> (r: Vec<
        TimelineDimension,
    >)
        requires
            dims@.len() == bases@.len(),
        ensures
            r@.len() == dims@.len(),
            forall|k: int|
                0 <= k < dims@.len() ==> (#[trigger] r@[k])@ == with_base(
                    dims@[k]@,
                    opt_view(bases@[k]),
                ),
    {
        let mut out: Vec<TimelineDimension> = Vec::new();
        let mut i: usize = 0;
        while i < dims.len()
            invariant
                i <= dims.len(),
                dims@.len() == bases@.len(),
                out@.len() == i,
                forall|k: int|
                    0 <= k < i ==> (#[trigger] out@[k])@ == with_base(
                        dims@[k]@,
                        opt_view(bases@[k]),
                    ),
            decreases dims.len() - i,
        {
            let d = dim_with_base(&dims[i], &bases[i]);
            out.push(d);
            i = i + 1;
        }
        out
    }
}

// ---------------------------------------------------------------------------
// Heads
// ---------------------------------------------------------------------------

/// The heads of the dimensions, each once, in the order of the dimensions.
pub open spec fn distinct_heads(dims: Seq<TimelineDimensionView>) -> Seq<Seq<char>>
    decreases dims.len(),
{
    if dims.len() == 0 {
        Seq::empty()
    } else {
        let prev = distinct_heads(dims.drop_last());
        match dims.last().head_commit {
            Some(h) => if prev.contains(h) {
                prev
            } else {
                prev.push(h)
            },
            None => prev,
        }
    }
}

fn holds_str(v: &Vec<String>, x: &str) -> (r: bool)
    ensures
        r == strs_view(v@).contains(x@),
{
    let mut i: usize = 0;
    while i < v.len()
        invariant
            i <= v.len(),
            forall|k: int| 0 <= k < i ==> (#[trigger] v@[k])@ != x@,
        decreases v.len() - i,
    {
        if str_eq(v[i].as_str(), x) {
            assert(strs_view(v@)[i as int] == x@);
            return true;
        }
        i = i + 1;
    }
    assert forall|k: int| 0 <= k < strs_view(v@).len() implies strs_view(v@)[k] != x@ by {
        assert(strs_view(v@)[k] == v@[k]@);
    }
    false
}

impl TimelineGraphBuilder {
    /// The heads from which the commits of the timeline are walked: the head
    /// of each dimension that has one, each once, in order.
    pub fn head_commits(dims: &Vec<TimelineDimension>) -> (r: Vec<String>)
        ensures
            strs_view(r@) == distinct_heads(dim_views(dims@)),
    {
        let ghost dv = dim_views(dims@);
        let mut out: Vec<String> = Vec::new();
        let mut i: usize = 0;
        proof {
            assert(dv.take(0) =~= Seq::<TimelineDimensionView>::empty());
            assert(strs_view(out@) =~= Seq::<Seq<char>>::empty());
        }
        while i < dims.len()
            invariant
                i <= dims.len(),
                dv == dim_views(dims@),
                strs_view(out@) == distinct_heads(dv.take(i as int)),
            decreases dims.len() - i,
        {
            proof {
                assert(dv.take(i + 1).drop_last() =~= dv.take(i as int));
                assert(dv.take(i + 1).last() == dims@[i as int]@);
            }
            match &dims[i].head_commit {
                Some(h) => {
                    if !holds_str(&out, h.as_str()) {
                        let ghost before = strs_view(out@);
                        out.push(h.clone());
                        proof {
                            assert(strs_view(out@) =~= before.push(h@));
                        }
                    }
                },
                None => {},
            }
            i = i + 1;
        }
        proof {
            assert(dv.take(dims.len() as int) =~= dv);
        }
        out
    }
}

// ---------------------------------------------------------------------------
// Nodes and edges
// ---------------------------------------------------------------------------

/// The names of the dimensions whose head is `id`, in order.
pub open spec fn heads_at(dims: Seq<TimelineDimensionView>, id: Seq<char>) -> Seq<Seq<char>>
    decreases dims.len(),
{
    if dims.len() == 0 {
        Seq::empty()
    } else {
        heads_at(dims.drop_last(), id) + (if dims.last().head_commit == Some(id) {
            seq![dims.last().name]
        } else {
            Seq::empty()
        })
    }
}

/// The names of the dimensions forked at `id`, in order.
pub open spec fn forked_at(dims: Seq<TimelineDimensionView>, id: Seq<char>) -> Seq<Seq<char>>
    decreases dims.len(),
{
    if dims.len() == 0 {
        Seq::empty()
    } else {
        forked_at(dims.drop_last(), id) + (if dims.last().fork_base_commit == Some(id) {
            seq![dims.last().name]
        } else {
            Seq::empty()
        })
    }
}

/// `cid` once for each time `id` occurs among the parents `ps`.
pub open spec fn parent_hits(ps: Seq<Seq<char>>, id: Seq<char>, cid: Seq<char>) -> Seq<Seq<char>>
    decreases ps.len(),
{
    if ps.len() == 0 {
        Seq::empty()
    } else {
        parent_hits(ps.drop_last(), id, cid) + (if ps.last() == id {
            seq![cid]
        } else {
            Seq::empty()
        })
    }
}

/// The children of `id` among the commits, in the order of the commits.
pub open spec fn children_in(cs: Seq<CommitEntryView>, id: Seq<char>) -> Seq<Seq<char>>
    decreases cs.len(),
{
    if cs.len() == 0 {
        Seq::empty()
    } else {
        children_in(cs.drop_last(), id) + parent_hits(cs.last().parents, id, cs.last().id)
    }
}

/// Whether a commit message marks a convergence of dimensions.
pub open spec fn convergence_tagged(m: Seq<char>) -> bool {
    ||| has_infix(m, "[converge]"@)
    ||| has_infix(m, "[collapse]"@)
    ||| has_infix(m, "[weave]"@)
    ||| has_infix(m, "[splice]"@)
    ||| has_infix(m, "[cascade]"@)
}

/// What a commit is in the timeline: a root without parents, a fork point
/// where a dimension was forked, a merge with several parents, a
/// convergence by its message, or a plain commit.
pub open spec fn node_kind(c: CommitEntryView, forked: Seq<Seq<char>>) -> TimelineNodeType {
    if c.parents.len() == 0 {
        TimelineNodeType::Root
    } else if forked.len() > 0 {
        TimelineNodeType::ForkPoint
    } else if c.parents.len() > 1 {
        TimelineNodeType::Merge
    } else if convergence_tagged(c.message) {
        TimelineNodeType::Convergence
    } else {
        TimelineNodeType::Commit
    }
}

/// What the number of a commit's parents says of its node: no parent makes
/// a root; with a parent, a commit where a dimension was forked is a fork
/// point; otherwise two or more parents make a merge, and one parent a
/// convergence or a plain commit.
pub open spec fn kind_by_parents(t: TimelineNodeType, parents: nat, forked_here: bool) -> bool {
    &&& parents == 0 ==> t == TimelineNodeType::Root
    &&& parents >= 1 && forked_here ==> t == TimelineNodeType::ForkPoint
    &&& parents >= 2 && !forked_here ==> t == TimelineNodeType::Merge
    &&& parents == 1 && !forked_here ==> (t == TimelineNodeType::Convergence || t == TimelineNodeType::Commit)
}

/// A commit's kind follows from its number of parents as
/// [`kind_by_parents`] says.
pub proof fn lemma_node_kind_by_parents(c: CommitEntryView, forked: Seq<Seq<char>>)
    ensures
        kind_by_parents(node_kind(c, forked), c.parents.len(), forked.len() > 0),
{
}

/// The lane of a commit: that of the first dimension it is the head of, or 0.
pub open spec fn lane_for(dims: Seq<TimelineDimensionView>, heads: Seq<Seq<char>>) -> usize {
    if heads.len() > 0 {
        match dim_named(dims, heads[0]) {
            Some(d) => d.lane,
            None => 0,
        }
    } else {
        0
    }
}

/// What the node of commit `c` holds, the time of writing aside where the
/// commit's time cannot be represented.
pub open spec fn node_fits(
    n: TimelineNodeView,
    dims: Seq<TimelineDimensionView>,
    cs: Seq<CommitEntryView>,
    c: CommitEntryView,
) -> bool {
    &&& n.id == c.id
    &&& n.short_id == short7(c.id)
    &&& n.node_type == node_kind(c, forked_at(dims, c.id))
    &&& n.author == c.author
    &&& n.timestamp == c.time
    &&& (representable(c.time) ==> n.datetime == rfc3339_text(c.time, 0))
    &&& (exists|s: i64, ns: u32| n.datetime == rfc3339_text(s, ns))
    &&& n.summary == trimmed(first_line(c.message))
    &&& n.parent_ids == c.parents
    &&& n.child_ids == children_in(cs, c.id)
    &&& n.reachable_dimensions == heads_at(dims, c.id)
    &&& n.head_of_dimensions == heads_at(dims, c.id)
    &&& n.forked_dimensions == forked_at(dims, c.id)
    &&& n.lane == lane_for(dims, heads_at(dims, c.id))
}

pub open spec fn parent_edge(id: Seq<char>, p: Seq<char>) -> TimelineEdgeView {
    TimelineEdgeView {
        source: id,
        target: p,
        edge_type: TimelineEdgeType::CommitParent,
        label: None,
    }
}

/// An edge from each commit to each of its parents, in order.
pub open spec fn parent_edges(cs: Seq<CommitEntryView>) -> Seq<TimelineEdgeView>
    decreases cs.len(),
{
    if cs.len() == 0 {
        Seq::empty()
    } else {
        parent_edges(cs.drop_last()) + cs.last().parents.map_values(
            |p: Seq<char>| parent_edge(cs.last().id, p),
        )
    }
}

pub open spec fn link_edge(p: EntangledPairView) -> TimelineEdgeView {
    TimelineEdgeView {
        source: p.dim1,
        target: p.dim2,
        edge_type: TimelineEdgeType::EntangleLink,
        label: Some("entangled"@),
    }
}

/// The commit ids are plain ASCII text.
pub open spec fn ids_ascii(cs: Seq<CommitEntryView>) -> bool {
    forall|k: int| 0 <= k < cs.len() ==> all_ascii(#[trigger] cs[k].id)
}

fn names_with_head(dims: &Vec<TimelineDimension>, id: &str) -> (r: Vec<String>)
    ensures
        strs_view(r@) == heads_at(dim_views(dims@), id@),
{
    let ghost dv = dim_views(dims@);
    let mut out: Vec<String> = Vec::new();
    let mut i: usize = 0;
    proof {
        assert(dv.take(0) =~= Seq::<TimelineDimensionView>::empty());
        assert(strs_view(out@) =~= Seq::<Seq<char>>::empty());
    }
    while i < dims.len()
        invariant
            i <= dims.len(),
            dv == dim_views(dims@),
            strs_view(out@) == heads_at(dv.take(i as int), id@),
        decreases dims.len() - i,
    {
        proof {
            assert(dv.take(i + 1).drop_last() =~= dv.take(i as int));
            assert(dv.take(i + 1).last() == dims@[i as int]@);
        }
        let ghost before = strs_view(out@);
        if opt_eq_str(&dims[i].head_commit, Some(id)) {
            out.push(dims[i].name.clone());
            proof {
                assert(strs_view(out@) =~= before + seq![dims@[i as int]@.name]);
            }
        } else {
            proof {
                assert(before + Seq::<Seq<char>>::empty() =~= before);
            }
        }
        i = i + 1;
    }
    proof {
        assert(dv.take(dims.len() as int) =~= dv);
    }
    out
}

fn names_forked_at(dims: &Vec<TimelineDimension>, id: &str) -> (r: Vec<String>)
    ensures
        strs_view(r@) == forked_at(dim_views(dims@), id@),
{
    let ghost dv = dim_views(dims@);
    let mut out: Vec<String> = Vec::new();
    let mut i: usize = 0;
    proof {
        assert(dv.take(0) =~= Seq::<TimelineDimensionView>::empty());
        assert(strs_view(out@) =~= Seq::<Seq<char>>::empty());
    }
    while i < dims.len()
        invariant
            i <= dims.len(),
            dv == dim_views(dims@),
            strs_view(out@) == forked_at(dv.take(i as int), id@),
        decreases dims.len() - i,
    {
        proof {
            assert(dv.take(i + 1).drop_last() =~= dv.take(i as int));
            assert(dv.take(i + 1).last() == dims@[i as int]@);
        }
        let ghost before = strs_view(out@);
        if opt_eq_str(&dims[i].fork_base_commit, Some(id)) {
            out.push(dims[i].name.clone());
            proof {
                assert(strs_view(out@) =~= before + seq![dims@[i as int]@.name]);
            }
        } else {
            proof {
                assert(before + Seq::<Seq<char>>::empty() =~= before);
            }
        }
        i = i + 1;
    }
    proof {
        assert(dv.take(dims.len() as int) =~= dv);
    }
    out
}

fn push_hits(out: &mut Vec<String>, ps: &Vec<String>, id: &str, cid: &str)
    ensures
        strs_view(final(out)@) == strs_view(old(out)@) + parent_hits(strs_view(ps@), id@, cid@),
{
    let ghost pv = strs_view(ps@);
    let ghost start = strs_view(out@);
    let mut j: usize = 0;
    proof {
        assert(pv.take(0) =~= Seq::<Seq<char>>::empty());
        assert(start + parent_hits(pv.take(0), id@, cid@) =~= start);
    }
    while j < ps.len()
        invariant
            j <= ps.len(),
            pv == strs_view(ps@),
            strs_view(out@) == start + parent_hits(pv.take(j as int), id@, cid@),
        decreases ps.len() - j,
    {
        proof {
            assert(pv.take(j + 1).drop_last() =~= pv.take(j as int));
            assert(pv.take(j + 1).last() == ps@[j as int]@);
        }
        let ghost before = strs_view(out@);
        if str_eq(ps[j].as_str(), id) {
            out.push(String::from_str(cid));
            proof {
                assert(strs_view(out@) =~= before + seq![cid@]);
            }
        } else {
            proof {
                assert(before + Seq::<Seq<char>>::empty() =~= before);
            }
        }
        j = j + 1;
    }
    proof {
        assert(pv.take(ps.len() as int) =~= pv);
    }
}

fn children_of_commit(commits: &Vec<CommitEntry>, id: &str) -> (r: Vec<String>)
    ensures
        strs_view(r@) == children_in(commit_views(commits@), id@),
{
    let ghost cv = commit_views(commits@);
    let mut out: Vec<String> = Vec::new();
    let mut i: usize = 0;
    proof {
        assert(cv.take(0) =~= Seq::<CommitEntryView>::empty());
        assert(strs_view(out@) =~= Seq::<Seq<char>>::empty());
    }
    while i < commits.len()
        invariant
            i <= commits.len(),
            cv == commit_views(commits@),
            strs_view(out@) == children_in(cv.take(i as int), id@),
        decreases commits.len() - i,
    {
        proof {
            assert(cv.take(i + 1).drop_last() =~= cv.take(i as int));
            assert(cv.take(i + 1).last() == commits@[i as int]@);
        }
        push_hits(&mut out, &commits[i].parents, id, commits[i].id.as_str());
        i = i + 1;
    }
    proof {
        assert(cv.take(commits.len() as int) =~= cv);
    }
    out
}

fn is_convergence(m: &str) -> (r: bool)
    ensures
        r == convergence_tagged(m@),
{
    str_contains(m, "[converge]") || str_contains(m, "[collapse]") || str_contains(m, "[weave]")
        || str_contains(m, "[splice]") || str_contains(m, "[cascade]")
}

fn kind_of(c: &CommitEntry, forked: &Vec<String>) -> (r: TimelineNodeType)
    ensures
        r == node_kind(c@, strs_view(forked@)),
        kind_by_parents(r, c@.parents.len(), forked@.len() > 0),
{
    proof {
        lemma_node_kind_by_parents(c@, strs_view(forked@));
    }
    if c.parents.len() == 0 {
        TimelineNodeType::Root
    } else if forked.len() > 0 {
        TimelineNodeType::ForkPoint
    } else if c.parents.len() > 1 {
        TimelineNodeType::Merge
    } else if is_convergence(c.message.as_str()) {
        TimelineNodeType::Convergence
    } else {
        TimelineNodeType::Commit
    }
}

fn lane_of(dims: &Vec<TimelineDimension>, heads: &Vec<String>) -> (r: usize)
    ensures
        r == lane_for(dim_views(dims@), strs_view(heads@)),
{
    let ghost dv = dim_views(dims@);
    if heads.len() == 0 {
        return 0;
    }
    let first = heads[0].as_str();
    assert(strs_view(heads@)[0] == first@);
    let mut i: usize = 0;
    while i < dims.len()
        invariant
            i <= dims.len(),
            dv == dim_views(dims@),
            strs_view(heads@).len() > 0,
            strs_view(heads@)[0] == first@,
            dim_named(dv, first@) == dim_named_from(dv, first@, i as int),
        decreases dims.len() - i,
    {
        assert(dv[i as int] == dims@[i as int]@);
        if str_eq(dims[i].name.as_str(), first) {
            assert(dim_named_from(dv, first@, i as int) == Some(dv[i as int]));
            return dims[i].lane;
        }
        i = i + 1;
    }
    0
}

fn node_for(dims: &Vec<TimelineDimension>, commits: &Vec<CommitEntry>, k: usize) -> (r: TimelineNode)
    requires
        k < commits@.len(),
        all_ascii(commits@[k as int].id@),
    ensures
        node_fits(r@, dim_views(dims@), commit_views(commits@), commits@[k as int]@),
{
    let c = &commits[k];
    let id = c.id.as_str();
    let heads = names_with_head(dims, id);
    let forked = names_forked_at(dims, id);
    let children = children_of_commit(commits, id);
    let node_type = kind_of(c, &forked);
    let lane = lane_of(dims, &heads);
    let datetime = rfc3339_or_now(c.time);
    let summary = first_line_trimmed(c.message.as_str());
    TimelineNode {
        id: c.id.clone(),
        short_id: short_id(id),
        node_type,
        author: c.author.clone(),
        timestamp: c.time,
        datetime,
        summary,
        parent_ids: clone_strings(&c.parents),
        child_ids: children,
        reachable_dimensions: clone_strings(&heads),
        head_of_dimensions: heads,
        forked_dimensions: forked,
        lane,
    }
}

fn push_parent_edges(edges: &mut Vec<TimelineEdge>, c: &CommitEntry)
    ensures
        edge_views(final(edges)@) == edge_views(old(edges)@) + c@.parents.map_values(
            |p: Seq<char>| parent_edge(c@.id, p),
        ),
{
    let ghost start = edge_views(edges@);
    let ghost f = |p: Seq<char>| parent_edge(c@.id, p);
    let ghost pv = c@.parents;
    let mut j: usize = 0;
    while j < c.parents.len()
        invariant
            j <= c.parents.len(),
            pv == c@.parents,
            pv.len() == c.parents@.len(),
            f == (|p: Seq<char>| parent_edge(c@.id, p)),
            edge_views(edges@) == start + pv.take(j as int).map_values(f),
        decreases c.parents.len() - j,
    {
        let ghost before = edge_views(edges@);
        edges.push(
            TimelineEdge {
                source: c.id.clone(),
                target: c.parents[j].clone(),
                edge_type: TimelineEdgeType::CommitParent,
                label: None,
            },
        );
        proof {
            assert(pv[j as int] == c.parents@[j as int]@);
            assert(pv.take(j + 1).map_values(f) =~= pv.take(j as int).map_values(f).push(
                f(pv[j as int]),
            ));
            assert(edge_views(edges@) =~= before.push(f(pv[j as int])));
        }
        j = j + 1;
    }
    proof {
        assert(pv.take(c.parents.len() as int) =~= pv);
    }
}

impl TimelineGraphBuilder {
    /// The timeline graph: the given dimensions; a node for each commit, in
    /// the order given, with its type, lane, parents, children, the
    /// dimensions it is the head of and those forked at it; an edge from
    /// each commit to each parent; and an edge for each entangled pair.
    pub fn build(
        repository: String,
        current_dimension: String,
        dimensions: Vec<TimelineDimension>,
        commits: &Vec<CommitEntry>,
        links: &Vec<EntangledPair>,
    ) -> (g: MultiverseTimelineGraph)
        requires
            ids_ascii(commit_views(commits@)),
        ensures
            g.version@ == "1.0"@,
            g.repository == repository,
            g.current_dimension == current_dimension,
            g.dimensions == dimensions,
            g.nodes@.len() == commits@.len(),
            forall|k: int|
                0 <= k < commits@.len() ==> node_fits(
                    (#[trigger] g.nodes@[k])@,
                    dim_views(dimensions@),
                    commit_views(commits@),
                    commits@[k]@,
                ),
            forall|k: int|
                0 <= k < commits@.len() ==> kind_by_parents(
                    (#[trigger] g.nodes@[k])@.node_type,
                    commits@[k]@.parents.len(),
                    forked_at(dim_views(dimensions@), commits@[k]@.id).len() > 0,
                ),
            edge_views(g.edges@) == parent_edges(commit_views(commits@)) + pair_views(
                links@,
            ).map_values(|p: EntangledPairView| link_edge(p)),
    {
        let ghost cv = commit_views(commits@);
        let ghost dv = dim_views(dimensions@);
        let mut nodes: Vec<TimelineNode> = Vec::new();
        let mut edges: Vec<TimelineEdge> = Vec::new();
        let mut i: usize = 0;
        proof {
            assert(cv.take(0) =~= Seq::<CommitEntryView>::empty());
            assert(edge_views(edges@) =~= Seq::<TimelineEdgeView>::empty());
        }
        while i < commits.len()
            invariant
                i <= commits.len(),
                cv == commit_views(commits@),
                dv == dim_views(dimensions@),
                ids_ascii(cv),
                nodes@.len() == i,
                forall|k: int|
                    0 <= k < i ==> node_fits((#[trigger] nodes@[k])@, dv, cv, commits@[k]@),
                edge_views(edges@) == parent_edges(cv.take(i as int)),
            decreases commits.len() - i,
        {
            proof {
                assert(cv[i as int] == commits@[i as int]@);
                assert(all_ascii(cv[i as int].id));
                assert(cv.take(i + 1).drop_last() =~= cv.take(i as int));
                assert(cv.take(i + 1).last() == commits@[i as int]@);
            }
            let n = node_for(&dimensions, commits, i);
            nodes.push(n);
            push_parent_edges(&mut edges, &commits[i]);
            i = i + 1;
        }
        proof {
            assert(cv.take(commits.len() as int) =~= cv);
        }
        let ghost mid = edge_views(edges@);
        let ghost lv = pair_views(links@);
        let ghost fl = |p: EntangledPairView| link_edge(p);
        let mut j: usize = 0;
        proof {
            reveal_strlit("entangled");
        }
        while j < links.len()
            invariant
                j <= links.len(),
                lv == pair_views(links@),
                fl == (|p: EntangledPairView| link_edge(p)),
                edge_views(edges@) == mid + lv.take(j as int).map_values(fl),
            decreases links.len() - j,
        {
            let ghost before = edge_views(edges@);
            edges.push(
                TimelineEdge {
                    source: links[j].dim1.clone(),
                    target: links[j].dim2.clone(),
                    edge_type: TimelineEdgeType::EntangleLink,
                    label: Some(String::from_str("entangled")),
                },
            );
            proof {
                reveal_strlit("entangled");
                assert(lv[j as int] == links@[j as int]@);
                assert(lv.take(j + 1).map_values(fl) =~= lv.take(j as int).map_values(fl).push(
                    fl(lv[j as int]),
                ));
                assert(edge_views(edges@) =~= before.push(fl(lv[j as int])));
            }
            j = j + 1;
        }
        proof {
            assert(lv.take(links.len() as int) =~= lv);
            reveal_strlit("1.0");
        }
        proof {
            assert forall|k: int| 0 <= k < commits@.len() implies kind_by_parents(
                (#[trigger] nodes@[k])@.node_type,
                commits@[k]@.parents.len(),
                forked_at(dv, commits@[k]@.id).len() > 0,
            ) by {
                lemma_node_kind_by_parents(commits@[k]@, forked_at(dv, commits@[k]@.id));
            }
        }
        MultiverseTimelineGraph {
            version: String::from_str("1.0"),
            repository,
            current_dimension,
            dimensions,
            nodes,
            edges,
        }
    }

    /// The timeline graph of a repository: its dimensions are those of
    /// [`TimelineGraphBuilder::dimensions`] with the fork bases `bases`
    /// (see [`TimelineGraphBuilder::with_fork_bases`]), so the mainline
    /// comes first without a parent, each dimension sits in the lane of its
    /// position, no other is the mainline and a filter keeps only the
    /// dimension it names; its nodes and edges are those of
    /// [`TimelineGraphBuilder::build`] over `commits` and `links`.
    pub fn assemble(
        repository: String,
        current_dimension: String,
        active: &str,
        mainline_created_at: &Option<String>,
        mainline_head: &Option<String>,
        entries: &Vec<DimensionEntry>,
        filter: Option<&str>,
        bases: &Vec<Option<String>>,
        commits: &Vec<CommitEntry>,
        links: &Vec<EntangledPair>,
    ) -> (g: MultiverseTimelineGraph)
        requires
            entries@.len() < usize::MAX,
            bases@.len() == timeline_dims(
                active@,
                opt_view(*mainline_created_at),
                opt_view(*mainline_head),
                entry_views(entries@),
                opt_str_view(filter),
            ).len(),
            ids_ascii(commit_views(commits@)),
        ensures
            ({
                let td = timeline_dims(
                    active@,
                    opt_view(*mainline_created_at),
                    opt_view(*mainline_head),
                    entry_views(entries@),
                    opt_str_view(filter),
                );
                let dv = dim_views(g.dimensions@);
                &&& dv.len() == td.len()
                &&& forall|k: int|
                    0 <= k < td.len() ==> #[trigger] dv[k] == with_base(td[k], opt_view(bases@[k]))
                &&& dv[0].name == "mainline"@
                &&& dv[0].parent is None
                &&& forall|k: int| 0 <= k < dv.len() ==> (#[trigger] dv[k]).lane == k
                &&& forall|k: int| 1 <= k < dv.len() ==> (#[trigger] dv[k]).name != "mainline"@
                &&& forall|k: int|
                    1 <= k < dv.len() ==> (filter matches Some(f) ==> (#[trigger] dv[k]).name == f@)
            }),
            g.version@ == "1.0"@,
            g.repository == repository,
            g.current_dimension == current_dimension,
            g.nodes@.len() == commits@.len(),
            forall|k: int|
                0 <= k < commits@.len() ==> node_fits(
                    (#[trigger] g.nodes@[k])@,
                    dim_views(g.dimensions@),
                    commit_views(commits@),
                    commits@[k]@,
                ),
            forall|k: int|
                0 <= k < commits@.len() ==> kind_by_parents(
                    (#[trigger] g.nodes@[k])@.node_type,
                    commits@[k]@.parents.len(),
                    forked_at(dim_views(g.dimensions@), commits@[k]@.id).len() > 0,
                ),
            edge_views(g.edges@) == parent_edges(commit_views(commits@)) + pair_views(
                links@,
            ).map_values(|p: EntangledPairView| link_edge(p)),
    {
        let dims = Self::dimensions(active, mainline_created_at, mainline_head, entries, filter);
        let ghost td = timeline_dims(
            active@,
            opt_view(*mainline_created_at),
            opt_view(*mainline_head),
            entry_views(entries@),
            opt_str_view(filter),
        );
        proof {
            lemma_timeline_dims_layout(
                active@,
                opt_view(*mainline_created_at),
                opt_view(*mainline_head),
                entry_views(entries@),
                opt_str_view(filter),
            );
            assert(dims@.len() == td.len()) by {
                assert(dim_views(dims@).len() == dims@.len());
            }
        }
        let based = Self::with_fork_bases(&dims, bases);
        let g = Self::build(repository, current_dimension, based, commits, links);
        proof {
            let dv = dim_views(g.dimensions@);
            assert forall|k: int| 0 <= k < td.len() implies #[trigger] dv[k] == with_base(
                td[k],
                opt_view(bases@[k]),
            ) by {
                assert(dim_views(dims@)[k] == dims@[k]@);
                assert(dv[k] == based@[k]@);
            }
            assert(dv[0] == with_base(td[0], opt_view(bases@[0])));
            assert forall|k: int| 0 <= k < dv.len() implies (#[trigger] dv[k]).lane == k by {
                assert(dv[k] == with_base(td[k], opt_view(bases@[k])));
            }
            assert forall|k: int| 1 <= k < dv.len() implies (#[trigger] dv[k]).name != "mainline"@ by {
                assert(dv[k] == with_base(td[k], opt_view(bases@[k])));
            }
            assert forall|k: int|
                1 <= k < dv.len() implies (filter matches Some(f) ==> (#[trigger] dv[k]).name == f@) by {
                assert(dv[k] == with_base(td[k], opt_view(bases@[k])));
            }
        }
        g
    }
}


} // verus!
