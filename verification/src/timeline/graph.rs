//! The timeline graph: its nodes, dimensions and edges.
use vstd::prelude::*;
use crate::text::{opt_view, strs_view};

verus! {

/// What a commit node is in the timeline.
#[derive(Debug, Clone, Copy, PartialEq, Eq, Structural)]
pub enum TimelineNodeType {
    Commit,
    Root,
    ForkPoint,
    Merge,
    Convergence,
    DirtyWorkspace,
}

/// One commit in the timeline.
#[derive(Debug, Clone)]
pub struct TimelineNode {
    pub id: String,
    pub short_id: String,
    pub node_type: TimelineNodeType,
    pub author: String,
    pub timestamp: i64,
    pub datetime: String,
    pub summary: String,
    pub parent_ids: Vec<String>,
    pub child_ids: Vec<String>,
    pub reachable_dimensions: Vec<String>,
    pub head_of_dimensions: Vec<String>,
    pub forked_dimensions: Vec<String>,
    pub lane: usize,
}

pub struct TimelineNodeView {
    pub id: Seq<char>,
    pub short_id: Seq<char>,
    pub node_type: TimelineNodeType,
    pub author: Seq<char>,
    pub timestamp: i64,
    pub datetime: Seq<char>,
    pub summary: Seq<char>,
    pub parent_ids: Seq<Seq<char>>,
    pub child_ids: Seq<Seq<char>>,
    pub reachable_dimensions: Seq<Seq<char>>,
    pub head_of_dimensions: Seq<Seq<char>>,
    pub forked_dimensions: Seq<Seq<char>>,
    pub lane: usize,
}

impl View for TimelineNode {
    type V = TimelineNodeView;

    open spec fn view(&self) -> TimelineNodeView {
        TimelineNodeView {
            id: self.id@,
            short_id: self.short_id@,
            node_type: self.node_type,
            author: self.author@,
            timestamp: self.timestamp,
            datetime: self.datetime@,
            summary: self.summary@,
            parent_ids: strs_view(self.parent_ids@),
            child_ids: strs_view(self.child_ids@),
            reachable_dimensions: strs_view(self.reachable_dimensions@),
            head_of_dimensions: strs_view(self.head_of_dimensions@),
            forked_dimensions: strs_view(self.forked_dimensions@),
            lane: self.lane,
        }
    }
}

/// One dimension in the timeline.
#[derive(Debug, Clone)]
pub struct TimelineDimension {
    pub name: String,
    pub parent: Option<String>,
    pub creator: String,
    pub created_at: String,
    pub fork_base_commit: Option<String>,
    pub head_commit: Option<String>,
    pub status: String,
    pub is_active: bool,
    pub lane: usize,
    pub dirty_files_count: usize,
}

pub struct TimelineDimensionView {
    pub name: Seq<char>,
    pub parent: Option<Seq<char>>,
    pub creator: Seq<char>,
    pub created_at: Seq<char>,
    pub fork_base_commit: Option<Seq<char>>,
    pub head_commit: Option<Seq<char>>,
    pub status: Seq<char>,
    pub is_active: bool,
    pub lane: usize,
    pub dirty_files_count: usize,
}

impl View for TimelineDimension {
    type V = TimelineDimensionView;

    open spec fn view(&self) -> TimelineDimensionView {
        TimelineDimensionView {
            name: self.name@,
            parent: opt_view(self.parent),
            creator: self.creator@,
            created_at: self.created_at@,
            fork_base_commit: opt_view(self.fork_base_commit),
            head_commit: opt_view(self.head_commit),
            status: self.status@,
            is_active: self.is_active,
            lane: self.lane,
            dirty_files_count: self.dirty_files_count,
        }
    }
}

/// What an edge of the timeline stands for.
#[derive(Debug, Clone, Copy, PartialEq, Eq, Structural)]
pub enum TimelineEdgeType {
    CommitParent,
    DimensionFork,
    MergeInput,
    LiveWorkspace,
    EntangleLink,
}

/// An edge from `source` to `target`.
#[derive(Debug, Clone)]
pub struct TimelineEdge {
    pub source: String,
    pub target: String,
    pub edge_type: TimelineEdgeType,
    pub label: Option<String>,
}

pub struct TimelineEdgeView {
    pub source: Seq<char>,
    pub target: Seq<char>,
    pub edge_type: TimelineEdgeType,
    pub label: Option<Seq<char>>,
}

impl View for TimelineEdge {
    type V = TimelineEdgeView;

    open spec fn view(&self) -> TimelineEdgeView {
        TimelineEdgeView {
            source: self.source@,
            target: self.target@,
            edge_type: self.edge_type,
            label: opt_view(self.label),
        }
    }
}

/// The whole timeline of a repository.
#[derive(Debug, Clone)]
pub struct MultiverseTimelineGraph {
    pub version: String,
    pub repository: String,
    pub current_dimension: String,
    pub dimensions: Vec<TimelineDimension>,
    pub nodes: Vec<TimelineNode>,
    pub edges: Vec<TimelineEdge>,
}

pub open spec fn dim_views(v: Seq<TimelineDimension>) -> Seq<TimelineDimensionView> {
    v.map_values(|d: TimelineDimension| d@)
}

pub open spec fn node_views(v: Seq<TimelineNode>) -> Seq<TimelineNodeView> {
    v.map_values(|n: TimelineNode| n@)
}

pub open spec fn edge_views(v: Seq<TimelineEdge>) -> Seq<TimelineEdgeView> {
    v.map_values(|e: TimelineEdge| e@)
}

/// Builds the timeline graph of a repository.
pub struct TimelineGraphBuilder;

} // verus!
