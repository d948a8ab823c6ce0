//! The state of the swarm: for each agent, how recently it was heard from
//! and what is uncommitted in the dimension it works in.
use vstd::prelude::*;
use crate::agent::heartbeat::{liveness_at, AgentLiveness};
use crate::agent::identity::{AgentIdentity, AgentIdentityView, AgentType};
use crate::text::{clone_strings, first_line, first_line_of, opt_view, str_eq, strs_view};

verus! {

/// What one agent is doing.
#[derive(Debug, Clone)]
pub struct AgentActivity {
    pub agent_id: String,
    pub name: String,
    pub agent_type: AgentType,
    pub assigned_dimension: String,
    pub liveness: AgentLiveness,
    pub seconds_since_heartbeat: Option<u64>,
    pub last_heartbeat_timestamp: Option<u64>,
    pub last_commit_oid: Option<String>,
    pub last_commit_message: Option<String>,
    pub staged_files: Vec<String>,
    pub modified_files: Vec<String>,
    pub untracked_files: Vec<String>,
    pub total_dirty_files: usize,
}

/// The state of every agent at one moment, with the count in each state of
/// liveness.
#[derive(Debug, Clone)]
pub struct SwarmStatusReport {
    pub timestamp: u64,
    pub total_agents: usize,
    pub active_agents: usize,
    pub idle_agents: usize,
    pub offline_agents: usize,
    pub agents: Vec<AgentActivity>,
}

/// The agents a status report covers: all of them, or those whose name or
/// id is the target.
pub open spec fn selected(agents: Seq<AgentIdentityView>, target: Option<Seq<char>>) -> Seq<AgentIdentityView>
    decreases agents.len(),
{
    if agents.len() == 0 {
        Seq::empty()
    } else {
        let a = agents.last();
        selected(agents.drop_last(), target) + (match target {
            Some(t) => if a.name == t || a.id == t {
                seq![a]
            } else {
                Seq::empty()
            },
            None => seq![a],
        })
    }
}

/// Whether a report with `target` covers agent `a`.
pub open spec fn covers(a: AgentIdentityView, target: Option<Seq<char>>) -> bool {
    match target {
        Some(t) => a.name == t || a.id == t,
        None => true,
    }
}

/// The positions, in order, of the agents that a report with `target`
/// covers.
pub open spec fn covered_positions(agents: Seq<AgentIdentityView>, target: Option<Seq<char>>) -> Seq<int>
    decreases agents.len(),
{
    if agents.len() == 0 {
        Seq::empty()
    } else {
        let rest = covered_positions(agents.drop_last(), target);
        if covers(agents.last(), target) {
            rest.push(agents.len() - 1)
        } else {
            rest
        }
    }
}

/// The covered positions are in range, strictly increasing, and are
/// exactly the positions of the covered agents.
pub proof fn lemma_covered_positions(agents: Seq<AgentIdentityView>, target: Option<Seq<char>>)
    ensures
        forall|k: int|
            0 <= k < covered_positions(agents, target).len() ==> 0 <= #[trigger] covered_positions(
                agents,
                target,
            )[k] < agents.len() && covers(agents[covered_positions(agents, target)[k]], target),
        forall|k: int, m: int|
            0 <= k < m < covered_positions(agents, target).len() ==> #[trigger] covered_positions(
                agents,
                target,
            )[k] < #[trigger] covered_positions(agents, target)[m],
        forall|i: int|
            0 <= i < agents.len() && #[trigger] covers(agents[i], target) ==> covered_positions(
                agents,
                target,
            ).contains(i),
    decreases agents.len(),
{
    if agents.len() > 0 {
        let init = agents.drop_last();
        lemma_covered_positions(init, target);
        let rest = covered_positions(init, target);
        assert forall|i: int|
            0 <= i < agents.len() && #[trigger] covers(agents[i], target) implies covered_positions(
                agents,
                target,
            ).contains(i) by {
            if i < agents.len() - 1 {
                assert(init[i] == agents[i]);
                let w = choose|j: int| 0 <= j < rest.len() && rest[j] == i;
                if covers(agents.last(), target) {
                    assert(covered_positions(agents, target)[w] == i);
                } else {
                    assert(covered_positions(agents, target)[w] == i);
                }
            } else {
                let c = covered_positions(agents, target);
                assert(c[c.len() - 1] == i);
            }
        }
        assert forall|k: int|
            0 <= k < covered_positions(agents, target).len() implies 0 <= #[trigger] covered_positions(
                agents,
                target,
            )[k] < agents.len() && covers(agents[covered_positions(agents, target)[k]], target) by {
            if k < rest.len() {
                assert(covered_positions(agents, target)[k] == rest[k]);
                assert(init[rest[k]] == agents[rest[k]]);
            }
        }
    }
}

pub open spec fn identity_views(v: Seq<AgentIdentity>) -> Seq<AgentIdentityView> {
    v.map_values(|a: AgentIdentity| a@)
}

// ---------------------------------------------------------------------------
// Paths in order
// ---------------------------------------------------------------------------

/// Whether path `a` sorts before path `b`: character by character, a
/// proper prefix first. This is the order of `String`, whose bytes are
/// UTF-8, which orders code points as their numbers do.
pub open spec fn path_lt(a: Seq<char>, b: Seq<char>) -> bool
    decreases a.len(),
{
    if a.len() == 0 {
        b.len() > 0
    } else if b.len() == 0 {
        false
    } else if a[0] != b[0] {
        a[0] < b[0]
    } else {
        path_lt(a.drop_first(), b.drop_first())
    }
}

/// Of two different paths, one sorts before the other, and never both ways.
pub proof fn lemma_path_lt_trichotomy(a: Seq<char>, b: Seq<char>)
    ensures
        !(path_lt(a, b) && path_lt(b, a)),
        a != b ==> (path_lt(a, b) || path_lt(b, a)),
        !path_lt(a, a),
    decreases a.len(),
{
    if a.len() > 0 && b.len() > 0 && a[0] == b[0] {
        lemma_path_lt_trichotomy(a.drop_first(), b.drop_first());
        if a != b {
            assert(a =~= seq![a[0]] + a.drop_first());
            assert(b =~= seq![b[0]] + b.drop_first());
        }
    }
    if a.len() > 0 {
        lemma_path_lt_trichotomy(a.drop_first(), a.drop_first());
    }
    if a.len() == 0 && b.len() == 0 {
        assert(a =~= b);
    }
}

/// Sorting before is transitive.
pub proof fn lemma_path_lt_transitive(a: Seq<char>, b: Seq<char>, c: Seq<char>)
    requires
        path_lt(a, b),
        path_lt(b, c),
    ensures
        path_lt(a, c),
    decreases a.len(),
{
    if a.len() > 0 && b.len() > 0 && c.len() > 0 && a[0] == b[0] && b[0] == c[0] {
        lemma_path_lt_transitive(a.drop_first(), b.drop_first(), c.drop_first());
    }
}

/// Whether path `a` sorts before path `b`.
pub fn str_lt(a: &str, b: &str) -> (r: bool)
    ensures
        r == path_lt(a@, b@),
{
    let x = crate::text::chars_of(a);
    let y = crate::text::chars_of(b);
    let mut i: usize = 0;
    proof {
        assert(x@.skip(0) =~= x@);
        assert(y@.skip(0) =~= y@);
    }
    while i < x.len() && i < y.len() && x[i] == y[i]
        invariant
            i <= x.len(),
            i <= y.len(),
            x@ == a@,
            y@ == b@,
            path_lt(a@, b@) == path_lt(x@.skip(i as int), y@.skip(i as int)),
        decreases x.len() - i,
    {
        proof {
            assert(x@.skip(i as int).drop_first() =~= x@.skip(i + 1));
            assert(y@.skip(i as int).drop_first() =~= y@.skip(i + 1));
        }
        i = i + 1;
    }
    if i == x.len() {
        i < y.len()
    } else if i == y.len() {
        false
    } else {
        x[i] < y[i]
    }
}

/// A file by path and content id.
#[derive(Debug, Clone)]
pub struct FileEntry {
    pub path: String,
    pub oid: String,
}

pub struct FileEntryView {
    pub path: Seq<char>,
    pub oid: Seq<char>,
}

impl View for FileEntry {
    type V = FileEntryView;

    open spec fn view(&self) -> FileEntryView {
        FileEntryView { path: self.path@, oid: self.oid@ }
    }
}

pub open spec fn entry_views(v: Seq<FileEntry>) -> Seq<FileEntryView> {
    v.map_values(|e: FileEntry| e@)
}

/// The staged changes of two lists of files sorted by path, the files of
/// the last commit and those of the index, walked together in path order:
/// a path only in the index is added, one only in the commit is deleted,
/// one in both is changed when its content ids differ.
pub open spec fn staged_merge(h: Seq<FileEntryView>, x: Seq<FileEntryView>) -> Seq<Seq<char>>
    decreases h.len() + x.len(),
{
    if h.len() == 0 && x.len() == 0 {
        Seq::empty()
    } else if h.len() == 0 {
        seq![x[0].path] + staged_merge(h, x.drop_first())
    } else if x.len() == 0 {
        seq!["deleted: "@ + h[0].path] + staged_merge(h.drop_first(), x)
    } else if path_lt(h[0].path, x[0].path) {
        seq!["deleted: "@ + h[0].path] + staged_merge(h.drop_first(), x)
    } else if path_lt(x[0].path, h[0].path) {
        seq![x[0].path] + staged_merge(h, x.drop_first())
    } else {
        (if h[0].oid != x[0].oid {
            seq![x[0].path]
        } else {
            Seq::empty()
        }) + staged_merge(h.drop_first(), x.drop_first())
    }
}

fn deleted_label(p: &str) -> (r: String)
    ensures
        r@ == "deleted: "@ + p@,
{
    let mut s = String::from_str("deleted: ");
    s.append(p);
    s
}

/// The staged changes between the files of the last commit and those of
/// the index, both sorted by path: each added or changed path, and each
/// deleted one marked `deleted: `, in path order.
pub fn staged_changes(head: &Vec<FileEntry>, index: &Vec<FileEntry>) -> (r: Vec<String>)
    ensures
        strs_view(r@) == staged_merge(entry_views(head@), entry_views(index@)),
{
    let ghost hv = entry_views(head@);
    let ghost xv = entry_views(index@);
    let mut out: Vec<String> = Vec::new();
    let mut i: usize = 0;
    let mut j: usize = 0;
    proof {
        assert(hv.skip(0) =~= hv);
        assert(xv.skip(0) =~= xv);
        assert(strs_view(out@) + staged_merge(hv, xv) =~= staged_merge(hv, xv));
    }
    while i < head.len() || j < index.len()
        invariant
            i <= head.len(),
            j <= index.len(),
            hv == entry_views(head@),
            xv == entry_views(index@),
            strs_view(out@) + staged_merge(hv.skip(i as int), xv.skip(j as int)) == staged_merge(hv, xv),
        decreases head.len() + index.len() - i - j,
    {
        let ghost hs = hv.skip(i as int);
        let ghost xs = xv.skip(j as int);
        let ghost before = strs_view(out@);
        proof {
            if i < head.len() {
                assert(hs[0] == head@[i as int]@);
                assert(hs.drop_first() =~= hv.skip(i + 1));
            }
            if j < index.len() {
                assert(xs[0] == index@[j as int]@);
                assert(xs.drop_first() =~= xv.skip(j + 1));
            }
        }
        if i == head.len() {
            out.push(index[j].path.clone());
            proof {
                assert(strs_view(out@) =~= before + seq![xs[0].path]);
            }
            j = j + 1;
        } else if j == index.len() {
            out.push(deleted_label(head[i].path.as_str()));
            proof {
                assert(strs_view(out@) =~= before + seq!["deleted: "@ + hs[0].path]);
            }
            i = i + 1;
        } else if str_lt(head[i].path.as_str(), index[j].path.as_str()) {
            out.push(deleted_label(head[i].path.as_str()));
            proof {
                assert(strs_view(out@) =~= before + seq!["deleted: "@ + hs[0].path]);
            }
            i = i + 1;
        } else if str_lt(index[j].path.as_str(), head[i].path.as_str()) {
            out.push(index[j].path.clone());
            proof {
                assert(strs_view(out@) =~= before + seq![xs[0].path]);
            }
            j = j + 1;
        } else {
            if !str_eq(head[i].oid.as_str(), index[j].oid.as_str()) {
                out.push(index[j].path.clone());
                proof {
                    assert(strs_view(out@) =~= before + seq![xs[0].path]);
                }
            } else {
                proof {
                    assert(strs_view(out@) =~= before + Seq::<Seq<char>>::empty());
                }
            }
            i = i + 1;
            j = j + 1;
        }
    }
    proof {
        assert(hv.skip(i as int) =~= Seq::<FileEntryView>::empty());
        assert(xv.skip(j as int) =~= Seq::<FileEntryView>::empty());
        assert(strs_view(out@) + Seq::<Seq<char>>::empty() =~= strs_view(out@));
    }
    out
}

// ---------------------------------------------------------------------------
// The working tree
// ---------------------------------------------------------------------------

/// An index entry as found on disk: whether its file exists, and the size
/// the disk reports for it where its metadata could be read.
#[derive(Debug, Clone)]
pub struct IndexFileState {
    pub path: String,
    pub exists: bool,
    pub disk_len: Option<u64>,
    pub file_size: u32,
}

pub struct IndexFileStateView {
    pub path: Seq<char>,
    pub exists: bool,
    pub disk_len: Option<u64>,
    pub file_size: u32,
}

impl View for IndexFileState {
    type V = IndexFileStateView;

    open spec fn view(&self) -> IndexFileStateView {
        IndexFileStateView {
            path: self.path@,
            exists: self.exists,
            disk_len: self.disk_len,
            file_size: self.file_size,
        }
    }
}

pub open spec fn state_views(v: Seq<IndexFileState>) -> Seq<IndexFileStateView> {
    v.map_values(|e: IndexFileState| e@)
}

/// The unstaged changes of the index entries, in order: a missing file is
/// deleted, and a file whose size on disk differs from the index is
/// modified.
pub open spec fn unstaged_listing(es: Seq<IndexFileStateView>) -> Seq<Seq<char>>
    decreases es.len(),
{
    if es.len() == 0 {
        Seq::empty()
    } else {
        let e = es.last();
        unstaged_listing(es.drop_last()) + (if !e.exists {
            seq!["deleted: "@ + e.path]
        } else {
            match e.disk_len {
                Some(n) => if n != e.file_size as u64 {
                    seq![e.path]
                } else {
                    Seq::empty()
                },
                None => Seq::empty(),
            }
        })
    }
}

/// The unstaged changes of the index entries.
pub fn unstaged_changes(entries: &Vec<IndexFileState>) -> (r: Vec<String>)
    ensures
        strs_view(r@) == unstaged_listing(state_views(entries@)),
{
    let ghost ev = state_views(entries@);
    let mut out: Vec<String> = Vec::new();
    let mut i: usize = 0;
    proof {
        assert(ev.take(0) =~= Seq::<IndexFileStateView>::empty());
        assert(strs_view(out@) =~= Seq::<Seq<char>>::empty());
    }
    while i < entries.len()
        invariant
            i <= entries.len(),
            ev == state_views(entries@),
            strs_view(out@) == unstaged_listing(ev.take(i as int)),
        decreases entries.len() - i,
    {
        let e = &entries[i];
        proof {
            assert(ev.take(i + 1).drop_last() =~= ev.take(i as int));
            assert(ev.take(i + 1).last() == e@);
        }
        let ghost before = strs_view(out@);
        if !e.exists {
            out.push(deleted_label(e.path.as_str()));
            proof {
                assert(strs_view(out@) =~= before + seq!["deleted: "@ + e@.path]);
            }
        } else {
            match e.disk_len {
                Some(n) => {
                    if n != e.file_size as u64 {
                        out.push(e.path.clone());
                        proof {
                            assert(strs_view(out@) =~= before + seq![e@.path]);
                        }
                    } else {
                        proof {
                            assert(strs_view(out@) =~= before + Seq::<Seq<char>>::empty());
                        }
                    }
                },
                None => {
                    proof {
                        assert(strs_view(out@) =~= before + Seq::<Seq<char>>::empty());
                    }
                },
            }
        }
        i = i + 1;
    }
    proof {
        assert(ev.take(entries.len() as int) =~= ev);
    }
    out
}

/// The files of the working tree that the index does not track, in order.
pub open spec fn untracked_listing(files: Seq<Seq<char>>, indexed: Seq<Seq<char>>) -> Seq<Seq<char>>
    decreases files.len(),
{
    if files.len() == 0 {
        Seq::empty()
    } else {
        untracked_listing(files.drop_last(), indexed) + (if indexed.contains(files.last()) {
            Seq::empty()
        } else {
            seq![files.last()]
        })
    }
}

/// The files of the working tree that the index does not track.
pub fn untracked_files(files: &Vec<String>, indexed: &Vec<String>) -> (r: Vec<String>)
    ensures
        strs_view(r@) == untracked_listing(strs_view(files@), strs_view(indexed@)),
{
    let ghost fv = strs_view(files@);
    let ghost tv = strs_view(indexed@);
    let mut out: Vec<String> = Vec::new();
    let mut i: usize = 0;
    proof {
        assert(fv.take(0) =~= Seq::<Seq<char>>::empty());
        assert(strs_view(out@) =~= Seq::<Seq<char>>::empty());
    }
    while i < files.len()
        invariant
            i <= files.len(),
            fv == strs_view(files@),
            tv == strs_view(indexed@),
            strs_view(out@) == untracked_listing(fv.take(i as int), tv),
        decreases files.len() - i,
    {
        proof {
            assert(fv.take(i + 1).drop_last() =~= fv.take(i as int));
            assert(fv.take(i + 1).last() == files@[i as int]@);
        }
        let ghost before = strs_view(out@);
        if !crate::commands::agent::any_is(indexed, files[i].as_str()) {
            out.push(files[i].clone());
            proof {
                assert(strs_view(out@) =~= before + seq![files@[i as int]@]);
            }
        } else {
            proof {
                assert(strs_view(out@) =~= before + Seq::<Seq<char>>::empty());
            }
        }
        i = i + 1;
    }
    proof {
        assert(fv.take(files.len() as int) =~= fv);
    }
    out
}

// ---------------------------------------------------------------------------
// The report
// ---------------------------------------------------------------------------

/// What was found in the dimension an agent works in: the id and the
/// message of its last commit, where they could be read, and its
/// uncommitted changes.
#[derive(Debug, Clone)]
pub struct WorkspaceState {
    pub last_commit_oid: Option<String>,
    pub last_commit_message: Option<String>,
    pub staged_files: Vec<String>,
    pub modified_files: Vec<String>,
    pub untracked_files: Vec<String>,
}

pub struct WorkspaceStateView {
    pub last_commit_oid: Option<Seq<char>>,
    pub last_commit_message: Option<Seq<char>>,
    pub staged_files: Seq<Seq<char>>,
    pub modified_files: Seq<Seq<char>>,
    pub untracked_files: Seq<Seq<char>>,
}

impl View for WorkspaceState {
    type V = WorkspaceStateView;

    open spec fn view(&self) -> WorkspaceStateView {
        WorkspaceStateView {
            last_commit_oid: opt_view(self.last_commit_oid),
            last_commit_message: opt_view(self.last_commit_message),
            staged_files: strs_view(self.staged_files@),
            modified_files: strs_view(self.modified_files@),
            untracked_files: strs_view(self.untracked_files@),
        }
    }
}

impl WorkspaceState {
    /// A copy with the same contents.
    pub fn duplicate(&self) -> (r: Self)
        ensures
            r@ == self@,
            r.staged_files@.len() == self.staged_files@.len(),
            r.modified_files@.len() == self.modified_files@.len(),
            r.untracked_files@.len() == self.untracked_files@.len(),
    {
        WorkspaceState {
            last_commit_oid: crate::text::clone_opt_string(&self.last_commit_oid),
            last_commit_message: crate::text::clone_opt_string(&self.last_commit_message),
            staged_files: clone_strings(&self.staged_files),
            modified_files: clone_strings(&self.modified_files),
            untracked_files: clone_strings(&self.untracked_files),
        }
    }
}

pub open spec fn workspace_views(v: Seq<WorkspaceState>) -> Seq<WorkspaceStateView> {
    v.map_values(|w: WorkspaceState| w@)
}

/// The dimension an agent works in: the one it is assigned to, else the
/// mainline.
pub open spec fn working_dimension(a: AgentIdentityView) -> Seq<char> {
    match a.assigned_dimension {
        Some(d) => d,
        None => "mainline"@,
    }
}

/// The seconds since a heartbeat, none for a heartbeat in the future.
pub open spec fn seconds_since(last: Option<u64>, now: u64) -> Option<u64> {
    match last {
        Some(t) => Some(if now >= t {
            (now - t) as u64
        } else {
            0
        }),
        None => None,
    }
}

/// Whether an activity record tells what the report says of agent `a`,
/// last heard from at `hb`, with the workspace `w`, at time `now`.
pub open spec fn activity_fits(
    r: AgentActivity,
    a: AgentIdentityView,
    hb: Option<u64>,
    w: WorkspaceStateView,
    now: u64,
) -> bool {
    &&& r.agent_id@ == a.id
    &&& r.name@ == a.name
    &&& r.agent_type == a.agent_type
    &&& r.assigned_dimension@ == working_dimension(a)
    &&& r.liveness == liveness_at(hb, now)
    &&& r.seconds_since_heartbeat == seconds_since(hb, now)
    &&& r.last_heartbeat_timestamp == hb
    &&& opt_view(r.last_commit_oid) == w.last_commit_oid
    &&& opt_view(r.last_commit_message) == match w.last_commit_message {
        Some(m) => Some(first_line(m)),
        None => None,
    }
    &&& strs_view(r.staged_files@) == w.staged_files
    &&& strs_view(r.modified_files@) == w.modified_files
    &&& strs_view(r.untracked_files@) == w.untracked_files
    &&& r.total_dirty_files == w.staged_files.len() + w.modified_files.len() + w.untracked_files.len()
}

/// How many of the heartbeats leave their agent in state `l` at `now`.
pub open spec fn count_in(hbs: Seq<Option<u64>>, now: u64, l: AgentLiveness) -> nat
    decreases hbs.len(),
{
    if hbs.len() == 0 {
        0
    } else {
        count_in(hbs.drop_last(), now, l) + (if liveness_at(hbs.last(), now) == l {
            1nat
        } else {
            0nat
        })
    }
}

proof fn lemma_count_bounded(hbs: Seq<Option<u64>>, now: u64, l: AgentLiveness)
    ensures
        count_in(hbs, now, l) <= hbs.len(),
    decreases hbs.len(),
{
    if hbs.len() > 0 {
        lemma_count_bounded(hbs.drop_last(), now, l);
    }
}

/// Every agent is counted in exactly one state of liveness: the active, idle
/// and offline counts add up to the number of agents.
pub proof fn lemma_counts_partition(hbs: Seq<Option<u64>>, now: u64)
    ensures
        count_in(hbs, now, AgentLiveness::Active) + count_in(hbs, now, AgentLiveness::Idle) + count_in(
            hbs,
            now,
            AgentLiveness::Offline,
        ) == hbs.len(),
    decreases hbs.len(),
{
    if hbs.len() > 0 {
        lemma_counts_partition(hbs.drop_last(), now);
    }
}

/// Builds the status report of a repository's agents.
pub struct StatusAggregator {
    dft_dir: String,
}

impl StatusAggregator {
    /// An aggregator over the repository whose metadata lies in `dft_dir`.
    pub fn new(dft_dir: &str) -> (r: Self)
        ensures
            r.dft_dir()@ == dft_dir@,
    {
        StatusAggregator { dft_dir: String::from_str(dft_dir) }
    }

    pub closed spec fn dft_dir(&self) -> String {
        self.dft_dir
    }

    /// The agents a report covers: every registered agent, or those whose
    /// name or id is `target`.
    pub fn select_agents(agents: &Vec<AgentIdentity>, target: Option<&str>) -> (r: Vec<AgentIdentity>)
        ensures
            identity_views(r@) == selected(identity_views(agents@), crate::text::opt_str_view(target)),
    {
        let ghost av = identity_views(agents@);
        let ghost tv = crate::text::opt_str_view(target);
        let mut out: Vec<AgentIdentity> = Vec::new();
        let mut i: usize = 0;
        proof {
            assert(av.take(0) =~= Seq::<AgentIdentityView>::empty());
            assert(identity_views(out@) =~= Seq::<AgentIdentityView>::empty());
        }
        while i < agents.len()
            invariant
                i <= agents.len(),
                av == identity_views(agents@),
                tv == crate::text::opt_str_view(target),
                identity_views(out@) == selected(av.take(i as int), tv),
            decreases agents.len() - i,
        {
            let a = &agents[i];
            proof {
                assert(av.take(i + 1).drop_last() =~= av.take(i as int));
                assert(av.take(i + 1).last() == a@);
            }
            let keep = match target {
                Some(t) => str_eq(a.name.as_str(), t) || str_eq(a.id.as_str(), t),
                None => true,
            };
            let ghost before = identity_views(out@);
            if keep {
                out.push(a.duplicate());
                proof {
                    assert(identity_views(out@) =~= before + seq![a@]);
                }
            } else {
                proof {
                    assert(identity_views(out@) =~= before + Seq::<AgentIdentityView>::empty());
                }
            }
            i = i + 1;
        }
        proof {
            assert(av.take(agents.len() as int) =~= av);
        }
        out
    }

    /// The dimension an agent works in.
    pub fn working_dimension_of(agent: &AgentIdentity) -> (r: String)
        ensures
            r@ == working_dimension(agent@),
    {
        proof {
            reveal_strlit("mainline");
        }
        match &agent.assigned_dimension {
            Some(d) => d.clone(),
            None => String::from_str("mainline"),
        }
    }

    /// The report at time `now` on `agents`, the `k`-th last heard from at
    /// `heartbeats[k]` and working in `workspaces[k]`: an activity record
    /// for each agent, in order, and how many are active, idle and offline.
    pub fn aggregate(
        &self,
        now: u64,
        agents: &Vec<AgentIdentity>,
        heartbeats: &Vec<Option<u64>>,
        workspaces: &Vec<WorkspaceState>,
    ) -> (r: SwarmStatusReport)
        requires
            heartbeats@.len() == agents@.len(),
            workspaces@.len() == agents@.len(),
            forall|k: int|
                0 <= k < workspaces@.len() ==> (#[trigger] workspaces@[k]).staged_files@.len()
                    + workspaces@[k].modified_files@.len() + workspaces@[k].untracked_files@.len()
                    <= usize::MAX,
        ensures
            r.timestamp == now,
            r.agents@.len() == agents@.len(),
            r.total_agents == agents@.len(),
            forall|k: int|
                0 <= k < agents@.len() ==> activity_fits(
                    #[trigger] r.agents@[k],
                    agents@[k]@,
                    heartbeats@[k],
                    workspaces@[k]@,
                    now,
                ),
            r.active_agents == count_in(heartbeats@, now, AgentLiveness::Active),
            r.idle_agents == count_in(heartbeats@, now, AgentLiveness::Idle),
            r.offline_agents == count_in(heartbeats@, now, AgentLiveness::Offline),
            r.active_agents + r.idle_agents + r.offline_agents == r.total_agents,
    {
        let ghost wv = workspaces@;
        let mut acts: Vec<AgentActivity> = Vec::new();
        let mut active: usize = 0;
        let mut idle: usize = 0;
        let mut offline: usize = 0;
        let mut k: usize = 0;
        proof {
            assert(heartbeats@.take(0) =~= Seq::<Option<u64>>::empty());
        }
        while k < agents.len()
            invariant
                k <= agents.len(),
                heartbeats@.len() == agents@.len(),
                wv.len() == agents@.len(),
                wv == workspaces@,
                forall|m: int|
                    0 <= m < wv.len() ==> (#[trigger] wv[m]).staged_files@.len()
                        + wv[m].modified_files@.len() + wv[m].untracked_files@.len() <= usize::MAX,
                acts@.len() == k,
                forall|m: int|
                    0 <= m < k ==> activity_fits(
                        #[trigger] acts@[m],
                        agents@[m]@,
                        heartbeats@[m],
                        wv[m]@,
                        now,
                    ),
                active == count_in(heartbeats@.take(k as int), now, AgentLiveness::Active),
                idle == count_in(heartbeats@.take(k as int), now, AgentLiveness::Idle),
                offline == count_in(heartbeats@.take(k as int), now, AgentLiveness::Offline),
            decreases agents.len() - k,
        {
            let a = &agents[k];
            let hb = heartbeats[k];
            proof {
                assert(heartbeats@.take(k + 1).drop_last() =~= heartbeats@.take(k as int));
                assert(heartbeats@.take(k + 1).last() == hb);
                lemma_count_bounded(heartbeats@.take(k as int), now, AgentLiveness::Active);
                lemma_count_bounded(heartbeats@.take(k as int), now, AgentLiveness::Idle);
                lemma_count_bounded(heartbeats@.take(k as int), now, AgentLiveness::Offline);
            }
            let liveness = AgentLiveness::evaluate(hb, now);
            match liveness {
                AgentLiveness::Active => {
                    active = active + 1;
                },
                AgentLiveness::Idle => {
                    idle = idle + 1;
                },
                AgentLiveness::Offline => {
                    offline = offline + 1;
                },
            }
            let since = match hb {
                Some(t) => Some(if now >= t {
                    now - t
                } else {
                    0
                }),
                None => None,
            };
            let w = &workspaces[k];
            let ghost wk = w@;
            let message = match &w.last_commit_message {
                Some(m) => Some(first_line_of(m.as_str())),
                None => None,
            };
            let total = w.staged_files.len() + w.modified_files.len() + w.untracked_files.len();
            let act = AgentActivity {
                agent_id: a.id.clone(),
                name: a.name.clone(),
                agent_type: a.agent_type,
                assigned_dimension: Self::working_dimension_of(a),
                liveness,
                seconds_since_heartbeat: since,
                last_heartbeat_timestamp: hb,
                last_commit_oid: crate::text::clone_opt_string(&w.last_commit_oid),
                last_commit_message: message,
                staged_files: clone_strings(&w.staged_files),
                modified_files: clone_strings(&w.modified_files),
                untracked_files: clone_strings(&w.untracked_files),
                total_dirty_files: total,
            };
            assert(activity_fits(act, a@, hb, wk, now));
            acts.push(act);
            k = k + 1;
        }
        proof {
            assert(heartbeats@.take(agents.len() as int) =~= heartbeats@);
            lemma_counts_partition(heartbeats@, now);
        }
        SwarmStatusReport {
            timestamp: now,
            total_agents: acts.len(),
            active_agents: active,
            idle_agents: idle,
            offline_agents: offline,
            agents: acts,
        }
    }

    /// The report at time `now` on the registered agents that `target`
    /// names (by name or id; all of them without a target), the `i`-th
    /// registered agent last heard from at `heartbeats[i]` and working in
    /// `workspaces[i]`.
    pub fn aggregate_for(
        &self,
        now: u64,
        agents: &Vec<AgentIdentity>,
        target: Option<&str>,
        heartbeats: &Vec<Option<u64>>,
        workspaces: &Vec<WorkspaceState>,
    ) -> (r: SwarmStatusReport)
        requires
            heartbeats@.len() == agents@.len(),
            workspaces@.len() == agents@.len(),
            forall|k: int|
                0 <= k < workspaces@.len() ==> (#[trigger] workspaces@[k]).staged_files@.len()
                    + workspaces@[k].modified_files@.len() + workspaces@[k].untracked_files@.len()
                    <= usize::MAX,
        ensures
            ({
                let ix = covered_positions(identity_views(agents@), crate::text::opt_str_view(target));
                &&& r.timestamp == now
                &&& r.agents@.len() == ix.len()
                &&& r.total_agents == ix.len()
                &&& forall|k: int|
                    0 <= k < ix.len() ==> activity_fits(
                        #[trigger] r.agents@[k],
                        agents@[ix[k]]@,
                        heartbeats@[ix[k]],
                        workspaces@[ix[k]]@,
                        now,
                    )
                &&& r.active_agents == count_in(ix.map_values(|i: int| heartbeats@[i]), now, AgentLiveness::Active)
                &&& r.idle_agents == count_in(ix.map_values(|i: int| heartbeats@[i]), now, AgentLiveness::Idle)
                &&& r.offline_agents == count_in(ix.map_values(|i: int| heartbeats@[i]), now, AgentLiveness::Offline)
            }),
            r.active_agents + r.idle_agents + r.offline_agents == r.total_agents,
            forall|k: int|
                0 <= k < r.agents@.len() ==> match target {
                    Some(t) => (#[trigger] r.agents@[k]).name@ == t@ || r.agents@[k].agent_id@ == t@,
                    None => true,
                },
    {
        let ghost av = identity_views(agents@);
        let ghost tv = crate::text::opt_str_view(target);
        let mut fa: Vec<AgentIdentity> = Vec::new();
        let mut fh: Vec<Option<u64>> = Vec::new();
        let mut fw: Vec<WorkspaceState> = Vec::new();
        let mut i: usize = 0;
        proof {
            assert(av.take(0) =~= Seq::<AgentIdentityView>::empty());
        }
        while i < agents.len()
            invariant
                i <= agents.len(),
                heartbeats@.len() == agents@.len(),
                workspaces@.len() == agents@.len(),
                av == identity_views(agents@),
                tv == crate::text::opt_str_view(target),
                forall|k: int|
                    0 <= k < workspaces@.len() ==> (#[trigger] workspaces@[k]).staged_files@.len()
                        + workspaces@[k].modified_files@.len() + workspaces@[k].untracked_files@.len()
                        <= usize::MAX,
                fa@.len() == covered_positions(av.take(i as int), tv).len(),
                fh@.len() == fa@.len(),
                fw@.len() == fa@.len(),
                forall|k: int|
                    #![trigger fa@[k]]
                    #![trigger fh@[k]]
                    #![trigger fw@[k]]
                    0 <= k < fa@.len() ==> {
                        let j = covered_positions(av.take(i as int), tv)[k];
                        &&& fa@[k]@ == agents@[j]@
                        &&& fh@[k] == heartbeats@[j]
                        &&& fw@[k]@ == workspaces@[j]@
                        &&& fw@[k].staged_files@.len() == workspaces@[j].staged_files@.len()
                        &&& fw@[k].modified_files@.len() == workspaces@[j].modified_files@.len()
                        &&& fw@[k].untracked_files@.len() == workspaces@[j].untracked_files@.len()
                    },
                forall|k: int|
                    0 <= k < covered_positions(av.take(i as int), tv).len() ==> 0 <= #[trigger] covered_positions(
                        av.take(i as int),
                        tv,
                    )[k] < i,
            decreases agents.len() - i,
        {
            let a = &agents[i];
            let ghost before = covered_positions(av.take(i as int), tv);
            proof {
                assert(av.take(i + 1).drop_last() =~= av.take(i as int));
                assert(av.take(i + 1).last() == a@);
                assert(av.take(i + 1).len() - 1 == i);
            }
            let keep = match target {
                Some(t) => str_eq(a.name.as_str(), t) || str_eq(a.id.as_str(), t),
                None => true,
            };
            assert(keep == covers(a@, tv));
            if keep {
                fa.push(a.duplicate());
                fh.push(heartbeats[i]);
                fw.push(workspaces[i].duplicate());
                proof {
                    let c = covered_positions(av.take(i + 1), tv);
                    assert(c == before.push(i as int));
                    assert forall|k: int| 0 <= k < fa@.len() implies {
                        let j = c[k];
                        &&& (#[trigger] fa@[k])@ == agents@[j]@
                        &&& fh@[k] == heartbeats@[j]
                        &&& fw@[k]@ == workspaces@[j]@
                        &&& fw@[k].staged_files@.len() == workspaces@[j].staged_files@.len()
                        &&& fw@[k].modified_files@.len() == workspaces@[j].modified_files@.len()
                        &&& fw@[k].untracked_files@.len() == workspaces@[j].untracked_files@.len()
                    } by {
                        if k < fa@.len() - 1 {
                            assert(c[k] == before[k]);
                        } else {
                            assert(c[k] == i);
                            assert(agents@[i as int]@ == a@);
                        }
                    }
                }
            } else {
                proof {
                    assert(covered_positions(av.take(i + 1), tv) == before);
                }
            }
            i = i + 1;
        }
        let ghost ix = covered_positions(av, tv);
        proof {
            assert(av.take(agents.len() as int) =~= av);
            assert forall|k: int| 0 <= k < fh@.len() implies fh@[k] == heartbeats@[ix[k]] by {}
            assert(fh@ =~= ix.map_values(|j: int| heartbeats@[j]));
            lemma_covered_positions(av, tv);
            assert forall|k: int| 0 <= k < fw@.len() implies (#[trigger] fw@[k]).staged_files@.len()
                + fw@[k].modified_files@.len() + fw@[k].untracked_files@.len() <= usize::MAX by {
                assert(0 <= ix[k] < workspaces@.len());
                assert(workspaces@[ix[k]].staged_files@.len() + workspaces@[ix[k]].modified_files@.len()
                    + workspaces@[ix[k]].untracked_files@.len() <= usize::MAX);
            }
        }
        let r = self.aggregate(now, &fa, &fh, &fw);
        proof {
            assert forall|k: int| 0 <= k < ix.len() implies activity_fits(
                #[trigger] r.agents@[k],
                agents@[ix[k]]@,
                heartbeats@[ix[k]],
                workspaces@[ix[k]]@,
                now,
            ) by {
                assert(activity_fits(r.agents@[k], fa@[k]@, fh@[k], fw@[k]@, now));
            }
            assert forall|k: int| 0 <= k < r.agents@.len() implies match target {
                Some(t) => (#[trigger] r.agents@[k]).name@ == t@ || r.agents@[k].agent_id@ == t@,
                None => true,
            } by {
                assert(0 <= ix[k] < av.len());
                assert(av[ix[k]] == agents@[ix[k]]@);
                assert(covers(av[ix[k]], tv));
            }
        }
        r
    }
}


} // verus!
