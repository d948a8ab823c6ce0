//! Observing another dimension without entering it: the state of its index
//! and working tree against its last commit.
use vstd::prelude::*;
use crate::agent::status::{lemma_path_lt_transitive, lemma_path_lt_trichotomy, path_lt, str_lt, FileEntry, FileEntryView};
use crate::entropy::{bytes_eq, data_at, distinct_paths, find_file, holds, merged_members, FileContent};
use crate::radar::{in_order, lemma_in_order_is, strictly_sorted_texts};
use crate::territory::error::AwarenessError;
use crate::text::{clone_opt_string, opt_view, path_join, path_joined, replace_all, replace_char, str_eq, strs_view};

verus! {

/// The state of a dimension: its head, and each kind of change in its
/// index and working tree, every list sorted by path.
#[derive(Debug, Clone)]
pub struct DimensionStatusReport {
    pub dimension: String,
    pub branch: String,
    pub head_oid: Option<String>,
    pub is_clean: bool,
    pub staged_added: Vec<String>,
    pub staged_modified: Vec<String>,
    pub staged_deleted: Vec<String>,
    pub unstaged_modified: Vec<String>,
    pub unstaged_deleted: Vec<String>,
    pub untracked: Vec<String>,
}

// ---------------------------------------------------------------------------
// Sorting by path
// ---------------------------------------------------------------------------

/// One component of a path, as `Path::components` yields it on Unix.
pub enum PathPart {
    RootDir,
    CurDir,
    ParentDir,
    Normal(Seq<char>),
}

/// The text between the separators of `s`, in order (one more piece than
/// there are separators).
pub open spec fn path_pieces(s: Seq<char>) -> Seq<Seq<char>>
    decreases s.len(),
{
    if s.len() == 0 {
        seq![Seq::empty()]
    } else {
        let r = path_pieces(s.drop_last());
        if s.last() == '/' {
            r.push(Seq::empty())
        } else {
            r.update(r.len() - 1, r.last().push(s.last()))
        }
    }
}

/// The components that pieces of a path stand for: empty pieces and `.`
/// stand for none, `..` for the parent, any other piece for itself.
pub open spec fn piece_parts(ps: Seq<Seq<char>>) -> Seq<PathPart>
    decreases ps.len(),
{
    if ps.len() == 0 {
        Seq::empty()
    } else {
        let r = piece_parts(ps.drop_last());
        let p = ps.last();
        if p.len() == 0 || p == "."@ {
            r
        } else if p == ".."@ {
            r.push(PathPart::ParentDir)
        } else {
            r.push(PathPart::Normal(p))
        }
    }
}

/// The components of path `s`: the root for a leading `/`, the current
/// directory for a path that is `.` or starts with `./`, then one for each
/// piece that stands for one.
pub open spec fn path_parts(s: Seq<char>) -> Seq<PathPart> {
    let lead = if s.len() > 0 && s[0] == '/' {
        seq![PathPart::RootDir]
    } else if s == "."@ || (s.len() >= 2 && s[0] == '.' && s[1] == '/') {
        seq![PathPart::CurDir]
    } else {
        Seq::empty()
    };
    lead + piece_parts(path_pieces(s))
}

/// The rank of a component's kind in `Component`'s order.
pub open spec fn part_rank(p: PathPart) -> int {
    match p {
        PathPart::RootDir => 1,
        PathPart::CurDir => 2,
        PathPart::ParentDir => 3,
        PathPart::Normal(_) => 4,
    }
}

/// How two components compare (-1, 0 or 1): by kind, then a name by its
/// characters (the order of its UTF-8 bytes).
pub open spec fn part_order(a: PathPart, b: PathPart) -> int {
    match (a, b) {
        (PathPart::Normal(x), PathPart::Normal(y)) => if x == y {
            0
        } else if path_lt(x, y) {
            -1
        } else {
            1
        },
        _ => if part_rank(a) < part_rank(b) {
            -1
        } else if part_rank(a) > part_rank(b) {
            1
        } else {
            0
        },
    }
}

/// How two sequences of components compare, the first difference
/// deciding and a proper prefix first.
pub open spec fn parts_order(a: Seq<PathPart>, b: Seq<PathPart>) -> int
    decreases a.len(),
{
    if a.len() == 0 {
        if b.len() == 0 {
            0
        } else {
            -1
        }
    } else if b.len() == 0 {
        1
    } else if part_order(a[0], b[0]) != 0 {
        part_order(a[0], b[0])
    } else {
        parts_order(a.drop_first(), b.drop_first())
    }
}

/// How two paths compare (-1, 0 or 1) in `Path`'s order: component by
/// component. Two paths are equal as paths when this is 0.
#[verifier::opaque]
pub open spec fn path_order(a: Seq<char>, b: Seq<char>) -> int {
    parts_order(path_parts(a), path_parts(b))
}

/// Every path compares equal to itself.
pub proof fn lemma_path_order_refl(a: Seq<char>)
    ensures
        path_order(a, a) == 0,
{
    reveal(path_order);
    lemma_parts_order_refl(path_parts(a));
}

proof fn lemma_parts_order_refl(a: Seq<PathPart>)
    ensures
        parts_order(a, a) == 0,
    decreases a.len(),
{
    if a.len() > 0 {
        if let PathPart::Normal(x) = a[0] {
            lemma_path_lt_trichotomy(x, x);
        }
        lemma_parts_order_refl(a.drop_first());
    }
}

/// The paths are in `Path`'s order, each no greater than any after it.
pub open spec fn paths_ordered(s: Seq<Seq<char>>) -> bool {
    forall|i: int, j: int| 0 <= i < j < s.len() ==> path_order(#[trigger] s[i], #[trigger] s[j]) <= 0
}

/// `r[i]` is `v[p[i]]`, each position of `v` taken once, and paths that
/// compare equal keep the order they had in `v`.
pub open spec fn stable_arrangement(v: Seq<Seq<char>>, r: Seq<Seq<char>>, p: Seq<int>) -> bool {
    &&& p.len() == v.len()
    &&& r.len() == v.len()
    &&& forall|i: int| 0 <= i < r.len() ==> 0 <= #[trigger] p[i] < v.len() && r[i] == v[p[i]]
    &&& forall|i: int, j: int| 0 <= i < j < r.len() ==> #[trigger] p[i] != #[trigger] p[j]
    &&& forall|i: int, j: int|
        0 <= i < j < r.len() && path_order(#[trigger] r[i], #[trigger] r[j]) == 0 ==> p[i] < p[j]
}

/// The order in which `Vec<PathBuf>::sort` leaves these paths.
pub uninterp spec fn path_sorted(v: Seq<Seq<char>>) -> Seq<Seq<char>>;

/// `slice::sort` on the paths as `PathBuf`s: a stable sort by `Path`'s
/// order, which compares component by component. The result, named
/// `path_sorted`, holds the same paths as many times each, in that order,
/// paths that compare equal in the order they came.
#[verifier::external_body]
pub(crate) fn sort_paths(v: Vec<String>) -> (r: Vec<String>)
    ensures
        strs_view(r@) == path_sorted(strs_view(v@)),
        strs_view(r@).to_multiset() == strs_view(v@).to_multiset(),
        paths_ordered(strs_view(r@)),
        exists|p: Seq<int>| stable_arrangement(strs_view(v@), strs_view(r@), p),
{
    let mut p: Vec<std::path::PathBuf> = v.into_iter().map(std::path::PathBuf::from).collect();
    p.sort();
    p.into_iter().map(|x| x.to_string_lossy().into_owned()).collect()
}

/// An index entry, with whether its file is on disk.
#[derive(Debug, Clone)]
pub struct ObservedEntry {
    pub path: String,
    pub oid: String,
    pub file_size: u32,
    pub exists: bool,
}

pub struct ObservedEntryView {
    pub path: Seq<char>,
    pub oid: Seq<char>,
    pub file_size: u32,
    pub exists: bool,
}

impl View for ObservedEntry {
    type V = ObservedEntryView;

    open spec fn view(&self) -> ObservedEntryView {
        ObservedEntryView { path: self.path@, oid: self.oid@, file_size: self.file_size, exists: self.exists }
    }
}

pub open spec fn observed_views(v: Seq<ObservedEntry>) -> Seq<ObservedEntryView> {
    v.map_values(|e: ObservedEntry| e@)
}

/// The entries are in strictly increasing path order, as an index keyed by
/// path gives them.
pub open spec fn strictly_sorted(x: Seq<ObservedEntryView>) -> bool {
    forall|i: int, j: int| 0 <= i < j < x.len() ==> path_lt(#[trigger] x[i].path, #[trigger] x[j].path)
}

/// No later entry of `v` than the `j`-th, up to `n`, has its path.
pub open spec fn last_of_path(v: Seq<ObservedEntryView>, j: int, n: int) -> bool {
    forall|m: int| j < m < n ==> (#[trigger] v[m]).path != v[j].path
}

/// Each entry of `x` is one of the first `n` raw entries `v`, the last one
/// with its path.
#[verifier::opaque]
pub open spec fn index_sources(v: Seq<ObservedEntryView>, n: int, x: Seq<ObservedEntryView>) -> bool {
    forall|k: int|
        0 <= k < x.len() ==> exists|j: int| 0 <= j < n && v[j] == #[trigger] x[k] && last_of_path(v, j, n)
}

/// Every path of the first `n` raw entries `v` is in `x`.
#[verifier::opaque]
pub open spec fn index_covers(v: Seq<ObservedEntryView>, n: int, x: Seq<ObservedEntryView>) -> bool {
    forall|j: int| #![trigger v[j]] 0 <= j < n ==> exists|k: int| 0 <= k < x.len() && (#[trigger] x[k]).path == v[j].path
}

/// Whether `x` is the index that the first `n` raw entries `v` make when
/// each is keyed by its path, a later entry replacing an earlier one: in
/// strictly increasing path order, each entry the last one of the raw
/// entries with its path, and every raw path present.
pub open spec fn index_of(v: Seq<ObservedEntryView>, n: int, x: Seq<ObservedEntryView>) -> bool {
    &&& strictly_sorted(x)
    &&& index_sources(v, n, x)
    &&& index_covers(v, n, x)
}

impl ObservedEntry {
    /// A copy with the same contents.
    pub fn duplicate(&self) -> (r: Self)
        ensures
            r@ == self@,
    {
        ObservedEntry { path: self.path.clone(), oid: self.oid.clone(), file_size: self.file_size, exists: self.exists }
    }
}

/// The index that raw entries make when each is keyed by its path: sorted
/// by path, a later entry for a path replacing an earlier one.
pub fn index_entries(entries: &Vec<ObservedEntry>) -> (r: Vec<ObservedEntry>)
    ensures
        index_of(observed_views(entries@), entries@.len() as int, observed_views(r@)),
{
    let ghost ev = observed_views(entries@);
    let mut out: Vec<ObservedEntry> = Vec::new();
    let mut i: usize = 0;
    proof {
        reveal(index_sources);
        reveal(index_covers);
        assert(observed_views(out@) =~= Seq::<ObservedEntryView>::empty());
    }
    while i < entries.len()
        invariant
            i <= entries.len(),
            ev == observed_views(entries@),
            index_of(ev, i as int, observed_views(out@)),
        decreases entries.len() - i,
    {
        let e = &entries[i];
        let ghost xv = observed_views(out@);
        let ghost ep = e@.path;
        assert(ev[i as int] == e@);
        let mut k: usize = 0;
        while k < out.len() && str_lt(out[k].path.as_str(), e.path.as_str())
            invariant
                k <= out.len(),
                xv == observed_views(out@),
                ep == e@.path,
                forall|m: int| 0 <= m < k ==> path_lt((#[trigger] xv[m]).path, ep),
            decreases out.len() - k,
        {
            assert(xv[k as int] == out@[k as int]@);
            k = k + 1;
        }
        if k < out.len() && str_eq(out[k].path.as_str(), e.path.as_str()) {
            proof {
                assert(xv[k as int] == out@[k as int]@);
            }
            out.set(k, e.duplicate());
            proof {
                let nv = observed_views(out@);
                assert(nv =~= xv.update(k as int, e@));
                lemma_replace_keeps_index(ev, i as int, xv, k as int);
            }
        } else {
            proof {
                if k < out.len() {
                    assert(xv[k as int] == out@[k as int]@);
                    lemma_path_lt_trichotomy(xv[k as int].path, ep);
                }
            }
            out.insert(k, e.duplicate());
            proof {
                let nv = observed_views(out@);
                assert(nv =~= xv.insert(k as int, e@));
                lemma_insert_keeps_index(ev, i as int, xv, k as int);
            }
        }
        i = i + 1;
    }
    out
}

/// Strictly sorted paths are distinct.
proof fn lemma_sorted_distinct(x: Seq<ObservedEntryView>, a: int, b: int)
    requires
        strictly_sorted(x),
        0 <= a < x.len(),
        0 <= b < x.len(),
        a != b,
    ensures
        x[a].path != x[b].path,
{
    if a < b {
        lemma_path_lt_trichotomy(x[a].path, x[b].path);
    } else {
        lemma_path_lt_trichotomy(x[b].path, x[a].path);
    }
}

proof fn lemma_replace_sources(v: Seq<ObservedEntryView>, i: int, x: Seq<ObservedEntryView>, k: int)
    requires
        0 <= i < v.len(),
        index_sources(v, i, x),
        0 <= k < x.len(),
        forall|m: int| 0 <= m < x.len() && m != k ==> (#[trigger] x[m]).path != v[i].path,
    ensures
        index_sources(v, i + 1, x.update(k, v[i])),
{
    reveal(index_sources);
    let y = x.update(k, v[i]);
    assert forall|m: int| 0 <= m < y.len() implies exists|j: int|
        0 <= j < i + 1 && v[j] == #[trigger] y[m] && last_of_path(v, j, i + 1) by {
        if m == k {
            assert(v[i] == y[m] && last_of_path(v, i, i + 1));
        } else {
            assert(y[m] == x[m]);
            let j = choose|j: int| 0 <= j < i && v[j] == #[trigger] x[m] && last_of_path(v, j, i);
            assert forall|m2: int| j < m2 < i + 1 implies (#[trigger] v[m2]).path != v[j].path by {
                if m2 < i {
                    assert(last_of_path(v, j, i));
                }
            }
        }
    }
}

proof fn lemma_replace_covers(v: Seq<ObservedEntryView>, i: int, x: Seq<ObservedEntryView>, k: int)
    requires
        0 <= i < v.len(),
        index_covers(v, i, x),
        0 <= k < x.len(),
        x[k].path == v[i].path,
    ensures
        index_covers(v, i + 1, x.update(k, v[i])),
{
    reveal(index_covers);
    let y = x.update(k, v[i]);
    assert forall|j: int| #![trigger v[j]] 0 <= j < i + 1 implies exists|m: int| 0 <= m < y.len() && (#[trigger] y[m]).path == v[j].path by {
        if j == i {
            assert(y[k].path == v[j].path);
        } else {
            let m = choose|m: int| 0 <= m < x.len() && (#[trigger] x[m]).path == v[j].path;
            if m == k {
                assert(y[k].path == x[k].path);
            } else {
                assert(y[m] == x[m]);
            }
        }
    }
}

/// Replacing the entry whose path is the next raw entry's keeps the index.
proof fn lemma_replace_keeps_index(v: Seq<ObservedEntryView>, i: int, x: Seq<ObservedEntryView>, k: int)
    requires
        0 <= i < v.len(),
        index_of(v, i, x),
        0 <= k < x.len(),
        x[k].path == v[i].path,
    ensures
        index_of(v, i + 1, x.update(k, v[i])),
{
    let y = x.update(k, v[i]);
    assert forall|m: int| 0 <= m < x.len() && m != k implies (#[trigger] x[m]).path != v[i].path by {
        lemma_sorted_distinct(x, m, k);
    }
    lemma_replace_sources(v, i, x, k);
    lemma_replace_covers(v, i, x, k);
    assert forall|a: int, b: int| 0 <= a < b < y.len() implies path_lt(#[trigger] y[a].path, #[trigger] y[b].path) by {
        assert(y[a].path == x[a].path && y[b].path == x[b].path);
    }
}

/// Where every path before `k` sorts before `p` and `p` before the path at
/// `k`, inserting `p` at `k` keeps the order and `p` was not there.
proof fn lemma_insert_sorted(x: Seq<ObservedEntryView>, e: ObservedEntryView, k: int)
    requires
        strictly_sorted(x),
        0 <= k <= x.len(),
        forall|m: int| 0 <= m < k ==> path_lt((#[trigger] x[m]).path, e.path),
        k < x.len() ==> path_lt(e.path, x[k].path),
    ensures
        strictly_sorted(x.insert(k, e)),
        forall|m: int| 0 <= m < x.len() ==> (#[trigger] x[m]).path != e.path,
{
    let y = x.insert(k, e);
    let p = e.path;
    assert forall|m: int| 0 <= m < x.len() implies (#[trigger] x[m]).path != p by {
        if m < k {
            lemma_path_lt_trichotomy(x[m].path, p);
        } else {
            if m > k {
                lemma_path_lt_transitive(p, x[k].path, x[m].path);
            }
            lemma_path_lt_trichotomy(p, x[m].path);
        }
    }
    assert forall|a: int, b: int| 0 <= a < b < y.len() implies path_lt(#[trigger] y[a].path, #[trigger] y[b].path) by {
        if b < k {
            assert(y[a] == x[a] && y[b] == x[b]);
        } else if b == k {
            assert(y[a] == x[a]);
        } else if a == k {
            assert(y[b] == x[b - 1]);
            if b - 1 > k {
                lemma_path_lt_transitive(p, x[k].path, x[b - 1].path);
            }
        } else if a < k {
            assert(y[a] == x[a] && y[b] == x[b - 1]);
        } else {
            assert(y[a] == x[a - 1] && y[b] == x[b - 1]);
        }
    }
}

proof fn lemma_insert_sources(v: Seq<ObservedEntryView>, i: int, x: Seq<ObservedEntryView>, k: int)
    requires
        0 <= i < v.len(),
        index_sources(v, i, x),
        0 <= k <= x.len(),
        forall|m: int| 0 <= m < x.len() ==> (#[trigger] x[m]).path != v[i].path,
    ensures
        index_sources(v, i + 1, x.insert(k, v[i])),
{
    reveal(index_sources);
    let y = x.insert(k, v[i]);
    assert forall|m: int| 0 <= m < y.len() implies exists|j: int|
        0 <= j < i + 1 && v[j] == #[trigger] y[m] && last_of_path(v, j, i + 1) by {
        if m == k {
            assert(v[i] == y[m] && last_of_path(v, i, i + 1));
        } else {
            let m0 = if m < k { m } else { m - 1 };
            assert(y[m] == x[m0]);
            let j = choose|j: int| 0 <= j < i && v[j] == #[trigger] x[m0] && last_of_path(v, j, i);
            assert(x[m0].path != v[i].path);
            assert forall|m2: int| j < m2 < i + 1 implies (#[trigger] v[m2]).path != v[j].path by {
                if m2 < i {
                    assert(last_of_path(v, j, i));
                }
            }
        }
    }
}

proof fn lemma_insert_covers(v: Seq<ObservedEntryView>, i: int, x: Seq<ObservedEntryView>, k: int)
    requires
        0 <= i < v.len(),
        index_covers(v, i, x),
        0 <= k <= x.len(),
    ensures
        index_covers(v, i + 1, x.insert(k, v[i])),
{
    reveal(index_covers);
    let y = x.insert(k, v[i]);
    assert forall|j: int| #![trigger v[j]] 0 <= j < i + 1 implies exists|m: int| 0 <= m < y.len() && (#[trigger] y[m]).path == v[j].path by {
        if j == i {
            assert(y[k].path == v[j].path);
        } else {
            let m = choose|m: int| 0 <= m < x.len() && (#[trigger] x[m]).path == v[j].path;
            if m < k {
                assert(y[m] == x[m]);
            } else {
                assert(y[m + 1] == x[m]);
            }
        }
    }
}

/// Inserting the next raw entry, where its path is new, at the place that
/// keeps the order keeps the index.
proof fn lemma_insert_keeps_index(v: Seq<ObservedEntryView>, i: int, x: Seq<ObservedEntryView>, k: int)
    requires
        0 <= i < v.len(),
        index_of(v, i, x),
        0 <= k <= x.len(),
        forall|m: int| 0 <= m < k ==> path_lt((#[trigger] x[m]).path, v[i].path),
        k < x.len() ==> path_lt(v[i].path, x[k].path),
    ensures
        index_of(v, i + 1, x.insert(k, v[i])),
{
    lemma_insert_sorted(x, v[i], k);
    lemma_insert_sources(v, i, x, k);
    lemma_insert_covers(v, i, x, k);
}

/// The entry for path `p`, if there is one.
pub open spec fn entry_for(x: Seq<ObservedEntryView>, p: Seq<char>) -> Option<ObservedEntryView> {
    if exists|k: int| 0 <= k < x.len() && #[trigger] x[k].path == p {
        Some(x[choose|k: int| 0 <= k < x.len() && #[trigger] x[k].path == p])
    } else {
        None
    }
}

fn find_entry(x: &Vec<ObservedEntry>, p: &str) -> (r: Option<usize>)
    requires
        strictly_sorted(observed_views(x@)),
    ensures
        match r {
            Some(k) => k < x@.len() && entry_for(observed_views(x@), p@) == Some(x@[k as int]@),
            None => entry_for(observed_views(x@), p@) is None,
        },
{
    let ghost xv = observed_views(x@);
    let mut lo: usize = 0;
    let mut hi: usize = x.len();
    while lo < hi
        invariant
            lo <= hi <= x.len(),
            xv == observed_views(x@),
            strictly_sorted(xv),
            forall|k: int| 0 <= k < lo ==> (#[trigger] xv[k]).path != p@,
            forall|k: int| hi <= k < xv.len() ==> (#[trigger] xv[k]).path != p@,
        decreases hi - lo,
    {
        let mid = lo + (hi - lo) / 2;
        let m = x[mid].path.as_str();
        assert(xv[mid as int].path == m@);
        if str_eq(m, p) {
            proof {
                assert(xv[mid as int].path == p@);
                let c = choose|k: int| 0 <= k < xv.len() && #[trigger] xv[k].path == p@;
                if c != mid {
                    if c < mid {
                        assert(path_lt(xv[c].path, xv[mid as int].path));
                    } else {
                        assert(path_lt(xv[mid as int].path, xv[c].path));
                    }
                    lemma_path_lt_trichotomy(p@, p@);
                }
            }
            return Some(mid);
        }
        if str_lt(m, p) {
            proof {
                assert forall|k: int| 0 <= k < mid + 1 implies (#[trigger] xv[k]).path != p@ by {
                    if k < mid {
                        assert(path_lt(xv[k].path, xv[mid as int].path));
                        if xv[k].path == p@ {
                            lemma_path_lt_trichotomy(p@, m@);
                        }
                    }
                }
            }
            lo = mid + 1;
        } else {
            proof {
                lemma_path_lt_trichotomy(m@, p@);
                assert(path_lt(p@, m@));
                assert forall|k: int| mid <= k < xv.len() implies (#[trigger] xv[k]).path != p@ by {
                    if k > mid {
                        assert(path_lt(xv[mid as int].path, xv[k].path));
                        if xv[k].path == p@ {
                            lemma_path_lt_trichotomy(p@, m@);
                        }
                    }
                }
            }
            hi = mid;
        }
    }
    None
}

// ---------------------------------------------------------------------------
// Staged changes
// ---------------------------------------------------------------------------

/// The staged changes of the last commit's files `h` and the index entries
/// `x`, both sorted by path, walked together: the paths added, modified and
/// deleted, each in path order.
pub open spec fn observe_merge(h: Seq<FileEntryView>, x: Seq<ObservedEntryView>) -> (
    Seq<Seq<char>>,
    Seq<Seq<char>>,
    Seq<Seq<char>>,
)
    decreases h.len() + x.len(),
{
    if h.len() == 0 && x.len() == 0 {
        (Seq::empty(), Seq::empty(), Seq::empty())
    } else if h.len() == 0 || (x.len() > 0 && path_lt(x[0].path, h[0].path)) {
        let r = observe_merge(h, x.drop_first());
        (seq![x[0].path] + r.0, r.1, r.2)
    } else if x.len() == 0 || path_lt(h[0].path, x[0].path) {
        let r = observe_merge(h.drop_first(), x);
        (r.0, r.1, seq![h[0].path] + r.2)
    } else {
        let r = observe_merge(h.drop_first(), x.drop_first());
        (
            r.0,
            (if x[0].oid != h[0].oid {
                seq![x[0].path]
            } else {
                Seq::empty()
            }) + r.1,
            r.2,
        )
    }
}

fn staged_lists(head: &Vec<FileEntry>, index: &Vec<ObservedEntry>) -> (r: (Vec<String>, Vec<String>, Vec<String>))
    ensures
        strs_view(r.0@) == observe_merge(crate::agent::status::entry_views(head@), observed_views(index@)).0,
        strs_view(r.1@) == observe_merge(crate::agent::status::entry_views(head@), observed_views(index@)).1,
        strs_view(r.2@) == observe_merge(crate::agent::status::entry_views(head@), observed_views(index@)).2,
{
    let ghost hv = crate::agent::status::entry_views(head@);
    let ghost xv = observed_views(index@);
    let ghost target = observe_merge(hv, xv);
    let mut added: Vec<String> = Vec::new();
    let mut modified: Vec<String> = Vec::new();
    let mut deleted: Vec<String> = Vec::new();
    let mut i: usize = 0;
    let mut j: usize = 0;
    proof {
        assert(hv.skip(0) =~= hv);
        assert(xv.skip(0) =~= xv);
        assert(strs_view(added@) + target.0 =~= target.0);
        assert(strs_view(modified@) + target.1 =~= target.1);
        assert(strs_view(deleted@) + target.2 =~= target.2);
    }
    while i < head.len() || j < index.len()
        invariant
            i <= head.len(),
            j <= index.len(),
            hv == crate::agent::status::entry_views(head@),
            xv == observed_views(index@),
            target == observe_merge(hv, xv),
            strs_view(added@) + observe_merge(hv.skip(i as int), xv.skip(j as int)).0 == target.0,
            strs_view(modified@) + observe_merge(hv.skip(i as int), xv.skip(j as int)).1 == target.1,
            strs_view(deleted@) + observe_merge(hv.skip(i as int), xv.skip(j as int)).2 == target.2,
        decreases head.len() + index.len() - i - j,
    {
        let ghost hs = hv.skip(i as int);
        let ghost xs = xv.skip(j as int);
        let ghost a0 = strs_view(added@);
        let ghost m0 = strs_view(modified@);
        let ghost d0 = strs_view(deleted@);
        proof {
            if i < head.len() {
                assert(hs[0] == head@[i as int]@);
                assert(hs.drop_first() =~= hv.skip(i + 1));
            }
            if j < index.len() {
                assert(xs[0] == index@[j as int]@);
                assert(xs.drop_first() =~= xv.skip(j + 1));
            }
        }
        let index_first = j < index.len() && (i == head.len() || str_lt(
            index[j].path.as_str(),
            head[i].path.as_str(),
        ));
        if index_first {
            added.push(index[j].path.clone());
            proof {
                assert(strs_view(added@) =~= a0 + seq![xs[0].path]);
                assert(a0 + (seq![xs[0].path] + observe_merge(hs, xs.drop_first()).0) =~= strs_view(added@)
                    + observe_merge(hs, xs.drop_first()).0);
            }
            j = j + 1;
        } else if j == index.len() || str_lt(head[i].path.as_str(), index[j].path.as_str()) {
            deleted.push(head[i].path.clone());
            proof {
                assert(strs_view(deleted@) =~= d0 + seq![hs[0].path]);
                assert(d0 + (seq![hs[0].path] + observe_merge(hs.drop_first(), xs).2) =~= strs_view(deleted@)
                    + observe_merge(hs.drop_first(), xs).2);
            }
            i = i + 1;
        } else {
            if !str_eq(index[j].oid.as_str(), head[i].oid.as_str()) {
                modified.push(index[j].path.clone());
                proof {
                    assert(strs_view(modified@) =~= m0 + seq![xs[0].path]);
                    assert(m0 + (seq![xs[0].path] + observe_merge(hs.drop_first(), xs.drop_first()).1)
                        =~= strs_view(modified@) + observe_merge(hs.drop_first(), xs.drop_first()).1);
                }
            } else {
                proof {
                    assert(m0 + (Seq::<Seq<char>>::empty() + observe_merge(hs.drop_first(), xs.drop_first()).1)
                        =~= strs_view(modified@) + observe_merge(hs.drop_first(), xs.drop_first()).1);
                }
            }
            i = i + 1;
            j = j + 1;
        }
    }
    proof {
        assert(hv.skip(i as int) =~= Seq::<FileEntryView>::empty());
        assert(xv.skip(j as int) =~= Seq::<ObservedEntryView>::empty());
        assert(strs_view(added@) + Seq::<Seq<char>>::empty() =~= strs_view(added@));
        assert(strs_view(modified@) + Seq::<Seq<char>>::empty() =~= strs_view(modified@));
        assert(strs_view(deleted@) + Seq::<Seq<char>>::empty() =~= strs_view(deleted@));
    }
    (added, modified, deleted)
}

// ---------------------------------------------------------------------------
// The working tree
// ---------------------------------------------------------------------------

/// A file found in the working tree: its path below the working directory,
/// the size the disk reports where its metadata could be read, and the id
/// of its content where it was read.
#[derive(Debug, Clone)]
pub struct WalkedFile {
    pub rel: String,
    pub disk_len: Option<u64>,
    pub content_oid: Option<String>,
}

pub struct WalkedFileView {
    pub rel: Seq<char>,
    pub disk_len: Option<u64>,
    pub content_oid: Option<Seq<char>>,
}

impl View for WalkedFile {
    type V = WalkedFileView;

    open spec fn view(&self) -> WalkedFileView {
        WalkedFileView { rel: self.rel@, disk_len: self.disk_len, content_oid: opt_view(self.content_oid) }
    }
}

pub open spec fn walked_views(v: Seq<WalkedFile>) -> Seq<WalkedFileView> {
    v.map_values(|w: WalkedFile| w@)
}

/// Whether a file of the working tree differs from its index entry: by its
/// size, or, at the same size, by the id of its content where that was read.
pub open spec fn differs(w: WalkedFileView, e: ObservedEntryView) -> bool {
    match w.disk_len {
        Some(n) => n != e.file_size as u64 || (w.content_oid matches Some(o) && o != e.oid),
        None => false,
    }
}

/// The modified and the untracked files among the files of the working
/// tree, in the order they were found, with backslashes turned into
/// forward slashes.
pub open spec fn walk_changes(ws: Seq<WalkedFileView>, x: Seq<ObservedEntryView>) -> (Seq<Seq<char>>, Seq<Seq<char>>)
    decreases ws.len(),
{
    if ws.len() == 0 {
        (Seq::empty(), Seq::empty())
    } else {
        let r = walk_changes(ws.drop_last(), x);
        let w = ws.last();
        let rel = replace_char(w.rel, '\\', "/"@);
        match entry_for(x, rel) {
            Some(e) => if differs(w, e) {
                (r.0.push(rel), r.1)
            } else {
                r
            },
            None => (r.0, r.1.push(rel)),
        }
    }
}

/// The index entries whose files are missing, in order.
pub open spec fn missing_entries(x: Seq<ObservedEntryView>) -> Seq<Seq<char>>
    decreases x.len(),
{
    if x.len() == 0 {
        Seq::empty()
    } else {
        missing_entries(x.drop_last()) + (if x.last().exists {
            Seq::empty()
        } else {
            seq![x.last().path]
        })
    }
}

fn walk_lists(walked: &Vec<WalkedFile>, index: &Vec<ObservedEntry>) -> (r: (Vec<String>, Vec<String>))
    requires
        strictly_sorted(observed_views(index@)),
    ensures
        strs_view(r.0@) == walk_changes(walked_views(walked@), observed_views(index@)).0,
        strs_view(r.1@) == walk_changes(walked_views(walked@), observed_views(index@)).1,
{
    let ghost wv = walked_views(walked@);
    let ghost xv = observed_views(index@);
    let mut modified: Vec<String> = Vec::new();
    let mut untracked: Vec<String> = Vec::new();
    let mut i: usize = 0;
    proof {
        assert(wv.take(0) =~= Seq::<WalkedFileView>::empty());
        assert(strs_view(modified@) =~= Seq::<Seq<char>>::empty());
        assert(strs_view(untracked@) =~= Seq::<Seq<char>>::empty());
    }
    while i < walked.len()
        invariant
            i <= walked.len(),
            wv == walked_views(walked@),
            xv == observed_views(index@),
            strictly_sorted(xv),
            strs_view(modified@) == walk_changes(wv.take(i as int), xv).0,
            strs_view(untracked@) == walk_changes(wv.take(i as int), xv).1,
        decreases walked.len() - i,
    {
        let w = &walked[i];
        proof {
            assert(wv.take(i + 1).drop_last() =~= wv.take(i as int));
            assert(wv.take(i + 1).last() == w@);
        }
        let rel = replace_all(w.rel.as_str(), '\\', "/");
        let ghost m0 = strs_view(modified@);
        let ghost u0 = strs_view(untracked@);
        match find_entry(index, rel.as_str()) {
            Some(k) => {
                let e = &index[k];
                let changed = match w.disk_len {
                    Some(n) => n != e.file_size as u64 || match &w.content_oid {
                        Some(o) => !str_eq(o.as_str(), e.oid.as_str()),
                        None => false,
                    },
                    None => false,
                };
                if changed {
                    modified.push(rel);
                    proof {
                        assert(strs_view(modified@) =~= m0.push(replace_char(w@.rel, '\\', "/"@)));
                    }
                }
            },
            None => {
                untracked.push(rel);
                proof {
                    assert(strs_view(untracked@) =~= u0.push(replace_char(w@.rel, '\\', "/"@)));
                }
            },
        }
        i = i + 1;
    }
    proof {
        assert(wv.take(walked.len() as int) =~= wv);
    }
    (modified, untracked)
}

fn missing_list(index: &Vec<ObservedEntry>) -> (r: Vec<String>)
    ensures
        strs_view(r@) == missing_entries(observed_views(index@)),
{
    let ghost xv = observed_views(index@);
    let mut out: Vec<String> = Vec::new();
    let mut i: usize = 0;
    proof {
        assert(xv.take(0) =~= Seq::<ObservedEntryView>::empty());
        assert(strs_view(out@) =~= Seq::<Seq<char>>::empty());
    }
    while i < index.len()
        invariant
            i <= index.len(),
            xv == observed_views(index@),
            strs_view(out@) == missing_entries(xv.take(i as int)),
        decreases index.len() - i,
    {
        proof {
            assert(xv.take(i + 1).drop_last() =~= xv.take(i as int));
            assert(xv.take(i + 1).last() == index@[i as int]@);
        }
        let ghost before = strs_view(out@);
        if !index[i].exists {
            out.push(index[i].path.clone());
            proof {
                assert(strs_view(out@) =~= before + seq![index@[i as int]@.path]);
            }
        } else {
            proof {
                assert(strs_view(out@) =~= before + Seq::<Seq<char>>::empty());
            }
        }
        i = i + 1;
    }
    proof {
        assert(xv.take(index.len() as int) =~= xv);
    }
    out
}

// ---------------------------------------------------------------------------
// The report
// ---------------------------------------------------------------------------

/// What the report on a dimension holds, from the last commit's files `h`,
/// the index entries `x`, the files found in the working tree `ws`, and
/// whether the working directory exists.
pub open spec fn report_fits(
    r: DimensionStatusReport,
    dimension: Seq<char>,
    head_oid: Option<Seq<char>>,
    h: Seq<FileEntryView>,
    x: Seq<ObservedEntryView>,
    ws: Seq<WalkedFileView>,
    workdir_exists: bool,
) -> bool {
    let staged = observe_merge(h, x);
    let walk = if workdir_exists {
        walk_changes(ws, x)
    } else {
        (Seq::empty(), Seq::empty())
    };
    let missing = if workdir_exists {
        missing_entries(x)
    } else {
        Seq::empty()
    };
    &&& r.dimension@ == dimension
    &&& r.branch@ == dimension
    &&& opt_view(r.head_oid) == head_oid
    &&& strs_view(r.staged_added@) == path_sorted(staged.0)
    &&& strs_view(r.staged_modified@) == path_sorted(staged.1)
    &&& strs_view(r.staged_deleted@) == path_sorted(staged.2)
    &&& strs_view(r.unstaged_modified@) == path_sorted(walk.0)
    &&& strs_view(r.unstaged_deleted@) == path_sorted(missing)
    &&& strs_view(r.untracked@) == path_sorted(walk.1)
    &&& paths_ordered(strs_view(r.staged_added@)) && paths_ordered(strs_view(r.staged_modified@))
    &&& paths_ordered(strs_view(r.staged_deleted@)) && paths_ordered(strs_view(r.unstaged_modified@))
    &&& paths_ordered(strs_view(r.unstaged_deleted@)) && paths_ordered(strs_view(r.untracked@))
    &&& r.is_clean == (staged.0.len() == 0 && staged.1.len() == 0 && staged.2.len() == 0 && walk.0.len()
        == 0 && missing.len() == 0 && walk.1.len() == 0)
}

/// Observes the dimensions of a repository.
pub struct ObserveSubsystem {
    dft_dir: String,
}

impl ObserveSubsystem {
    /// An observer of the repository whose metadata lies in `dft_dir`.
    pub fn new(dft_dir: &str) -> (r: Self)
        ensures
            r.dft_dir()@ == dft_dir@,
    {
        ObserveSubsystem { dft_dir: String::from_str(dft_dir) }
    }

    pub closed spec fn dft_dir(&self) -> String {
        self.dft_dir
    }

    /// Where the workspace of a dimension other than the mainline lies.
    pub fn dimension_dir(&self, dimension: &str) -> (r: String)
        ensures
            r@ == path_joined(path_joined(self.dft_dir()@, "dimensions"@), dimension@),
    {
        let d = path_join(self.dft_dir.as_str(), "dimensions");
        path_join(d.as_str(), dimension)
    }

    /// The mainline always exists; another dimension exists when its
    /// directory does.
    pub fn ensure_dimension_exists(&self, dimension: &str, dir_exists: bool) -> (r: Result<(), AwarenessError>)
        ensures
            r is Ok <==> (dimension@ == "mainline"@ || dir_exists),
            r matches Err(e) ==> (e matches AwarenessError::DimensionNotFound(d) && d@ == dimension@),
    {
        proof {
            reveal_strlit("mainline");
        }
        if str_eq(dimension, "mainline") || dir_exists {
            Ok(())
        } else {
            Err(AwarenessError::DimensionNotFound(String::from_str(dimension)))
        }
    }

    /// The status of a dimension from its index entries as read, in any
    /// order and possibly repeating a path: they are first keyed by path,
    /// a later entry replacing an earlier one (see [`index_entries`]).
    pub fn status_from_entries(
        &self,
        dimension: &str,
        head_oid: &Option<String>,
        head_files: &Vec<FileEntry>,
        raw_index: &Vec<ObservedEntry>,
        walked: &Vec<WalkedFile>,
        workdir_exists: bool,
    ) -> (r: DimensionStatusReport)
        ensures
            exists|x: Seq<ObservedEntryView>|
                index_of(observed_views(raw_index@), raw_index@.len() as int, x) && #[trigger] report_fits(
                    r,
                    dimension@,
                    opt_view(*head_oid),
                    crate::agent::status::entry_views(head_files@),
                    x,
                    walked_views(walked@),
                    workdir_exists,
                ),
    {
        let index = index_entries(raw_index);
        self.status(dimension, head_oid, head_files, &index, walked, workdir_exists)
    }

    /// The status of a dimension from what was read of it: the files of its
    /// last commit and its index entries, both sorted by path, and the files
    /// found in its working tree; with no working directory, only the staged
    /// changes are reported.
    pub fn status(
        &self,
        dimension: &str,
        head_oid: &Option<String>,
        head_files: &Vec<FileEntry>,
        index: &Vec<ObservedEntry>,
        walked: &Vec<WalkedFile>,
        workdir_exists: bool,
    ) -> (r: DimensionStatusReport)
        requires
            strictly_sorted(observed_views(index@)),
        ensures
            report_fits(
                r,
                dimension@,
                opt_view(*head_oid),
                crate::agent::status::entry_views(head_files@),
                observed_views(index@),
                walked_views(walked@),
                workdir_exists,
            ),
    {
        let (added, modified, deleted) = staged_lists(head_files, index);
        let (unstaged_modified, untracked, unstaged_deleted) = if workdir_exists {
            let (m, u) = walk_lists(walked, index);
            (m, u, missing_list(index))
        } else {
            let m: Vec<String> = Vec::new();
            let u: Vec<String> = Vec::new();
            let d: Vec<String> = Vec::new();
            proof {
                assert(strs_view(m@) =~= Seq::<Seq<char>>::empty());
                assert(strs_view(u@) =~= Seq::<Seq<char>>::empty());
                assert(strs_view(d@) =~= Seq::<Seq<char>>::empty());
            }
            (m, u, d)
        };
        let is_clean = added.len() == 0 && modified.len() == 0 && deleted.len() == 0
            && unstaged_modified.len() == 0 && unstaged_deleted.len() == 0 && untracked.len() == 0;
        DimensionStatusReport {
            dimension: String::from_str(dimension),
            branch: String::from_str(dimension),
            head_oid: clone_opt_string(head_oid),
            is_clean,
            staged_added: sort_paths(added),
            staged_modified: sort_paths(modified),
            staged_deleted: sort_paths(deleted),
            unstaged_modified: sort_paths(unstaged_modified),
            unstaged_deleted: sort_paths(unstaged_deleted),
            untracked: sort_paths(untracked),
        }
    }
}

// ---------------------------------------------------------------------------
// The files a dimension shows
// ---------------------------------------------------------------------------

/// A write of a file as plain values: its path and bytes.
pub open spec fn write_views(v: Seq<FileContent>) -> Seq<(Seq<char>, Seq<u8>)> {
    v.map_values(|f: FileContent| (f.path@, f.data@))
}

/// The bytes last written to path `p`, if any write was.
pub open spec fn last_write(ws: Seq<(Seq<char>, Seq<u8>)>, p: Seq<char>) -> Option<Seq<u8>>
    decreases ws.len(),
{
    if ws.len() == 0 {
        None
    } else if ws.last().0 == p {
        Some(ws.last().1)
    } else {
        last_write(ws.drop_last(), p)
    }
}

/// The paths written to.
pub open spec fn written_paths(ws: Seq<(Seq<char>, Seq<u8>)>) -> Set<Seq<char>> {
    Set::new(|p: Seq<char>| last_write(ws, p) is Some)
}

pub open spec fn file_paths(v: Seq<FileContent>) -> Seq<Seq<char>> {
    v.map_values(|f: FileContent| f.path@)
}

/// Whether `out` is what the writes leave: each path written, once, in
/// order, with the bytes last written to it.
pub open spec fn overlay_fits(out: Seq<FileContent>, ws: Seq<(Seq<char>, Seq<u8>)>) -> bool {
    &&& strictly_sorted_texts(file_paths(out))
    &&& file_paths(out).to_set() == written_paths(ws)
    &&& forall|k: int| 0 <= k < out.len() ==> last_write(ws, (#[trigger] out[k]).path@) == Some(out[k].data@)
}

fn copy_file(f: &FileContent) -> (r: FileContent)
    ensures
        r.path@ == f.path@,
        r.data@ == f.data@,
{
    FileContent { path: f.path.clone(), data: f.data.clone() }
}

/// One more write applied.
fn put_file(out: &mut Vec<FileContent>, w: FileContent, ghost_ws: Ghost<Seq<(Seq<char>, Seq<u8>)>>)
    requires
        overlay_fits(old(out)@, ghost_ws@),
    ensures
        overlay_fits(final(out)@, ghost_ws@.push((w.path@, w.data@))),
{
    let ghost ws = ghost_ws@;
    let ghost nws = ws.push((w.path@, w.data@));
    let ghost before = out@;
    proof {
        assert(nws.drop_last() =~= ws);
    }
    let mut p: usize = 0;
    while p < out.len() && str_lt(out[p].path.as_str(), w.path.as_str())
        invariant
            p <= out.len(),
            out@ == before,
            forall|k: int| 0 <= k < p ==> path_lt(#[trigger] file_paths(before)[k], w.path@),
        decreases out.len() - p,
    {
        assert(file_paths(before)[p as int] == out@[p as int].path@);
        p = p + 1;
    }
    let ghost fp = file_paths(before);
    if p < out.len() && str_eq(out[p].path.as_str(), w.path.as_str()) {
        let ghost wp = w.path@;
        let ghost wd = w.data@;
        out.set(p, w);
        proof {
            assert(fp[p as int] == wp);
            assert(file_paths(out@) =~= fp);
            assert forall|q: Seq<char>| written_paths(nws).contains(q) <==> written_paths(ws).contains(q) by {
                if q == wp {
                    assert(fp.contains(q));
                }
            }
            assert(written_paths(nws) =~= written_paths(ws));
            assert forall|k: int| 0 <= k < out@.len() implies last_write(nws, (#[trigger] out@[k]).path@) == Some(
                out@[k].data@,
            ) by {
                if k != p {
                    assert(out@[k] == before[k]);
                    assert(fp[k] == before[k].path@);
                    lemma_path_lt_trichotomy(fp[k], wp);
                    if k < p {
                        assert(path_lt(fp[k], fp[p as int]));
                    } else {
                        assert(path_lt(fp[p as int], fp[k]));
                    }
                }
            }
        }
    } else {
        let ghost wp = w.path@;
        let ghost wd = w.data@;
        proof {
            if p < out.len() {
                assert(fp[p as int] == out@[p as int].path@);
                lemma_path_lt_trichotomy(fp[p as int], wp);
            }
        }
        out.insert(p, w);
        proof {
            let np = file_paths(out@);
            assert(np =~= fp.insert(p as int, wp));
            assert forall|a: int, b: int| 0 <= a < b < np.len() implies path_lt(#[trigger] np[a], #[trigger] np[b]) by {
                if b < p {
                    assert(np[a] == fp[a] && np[b] == fp[b]);
                } else if b == p {
                    assert(np[a] == fp[a]);
                } else if a < p {
                    assert(np[a] == fp[a] && np[b] == fp[b - 1]);
                    if a < b - 1 {
                    } 
                } else if a == p {
                    assert(np[b] == fp[b - 1]);
                    if b - 1 > p {
                        lemma_path_lt_transitive(wp, fp[p as int], fp[b - 1]);
                    }
                } else {
                    assert(np[a] == fp[a - 1] && np[b] == fp[b - 1]);
                }
            }
            assert forall|q: Seq<char>| np.to_set().contains(q) <==> written_paths(nws).contains(q) by {
                if np.contains(q) {
                    let k = choose|k: int| 0 <= k < np.len() && np[k] == q;
                    if k < p {
                        assert(fp[k] == q);
                        assert(fp.to_set().contains(q));
                    } else if k > p {
                        assert(fp[k - 1] == q);
                        assert(fp.to_set().contains(q));
                    }
                }
                if written_paths(nws).contains(q) {
                    if q == wp {
                        assert(np[p as int] == q);
                    } else {
                        assert(written_paths(ws).contains(q));
                        assert(fp.to_set().contains(q));
                        let k = choose|k: int| 0 <= k < fp.len() && fp[k] == q;
                        if k < p {
                            assert(np[k] == q);
                        } else {
                            assert(np[k + 1] == q);
                        }
                    }
                }
            }
            assert(np.to_set() =~= written_paths(nws));
            assert forall|k: int| 0 <= k < out@.len() implies last_write(nws, (#[trigger] out@[k]).path@) == Some(
                out@[k].data@,
            ) by {
                if k < p {
                    assert(out@[k] == before[k]);
                    assert(fp[k] == before[k].path@);
                    lemma_path_lt_trichotomy(fp[k], wp);
                } else if k > p {
                    assert(out@[k] == before[k - 1]);
                    assert(fp[k - 1] == before[k - 1].path@);
                    if p < before.len() {
                        assert(path_lt(wp, fp[p as int]));
                        if k - 1 > p {
                            lemma_path_lt_transitive(wp, fp[p as int], fp[k - 1]);
                        }
                    }
                    lemma_path_lt_trichotomy(fp[k - 1], wp);
                }
            }
        }
    }
}

impl ObserveSubsystem {
    /// The files a dimension shows: those of its last commit, overlaid by
    /// its index, overlaid by its working tree; each path once, in order,
    /// with the bytes of the last layer that holds it.
    pub fn get_dimension_virtual_files(
        head: &Vec<FileContent>,
        index: &Vec<FileContent>,
        workspace: &Vec<FileContent>,
    ) -> (r: Vec<FileContent>)
        ensures
            overlay_fits(r@, write_views(head@ + index@ + workspace@)),
            file_paths(r@) == in_order(written_paths(write_views(head@ + index@ + workspace@))),
    {
        let ghost all = write_views(head@ + index@ + workspace@);
        let mut out: Vec<FileContent> = Vec::new();
        proof {
            assert(written_paths(Seq::<(Seq<char>, Seq<u8>)>::empty()) =~= Set::<Seq<char>>::empty());
            assert(file_paths(out@) =~= Seq::<Seq<char>>::empty());
            assert(all.take(0) =~= Seq::<(Seq<char>, Seq<u8>)>::empty());
            assert(file_paths(out@).to_set() =~= Set::<Seq<char>>::empty());
            assert(written_paths(all.take(0)) =~= Set::<Seq<char>>::empty());
        }
        let mut i: usize = 0;
        while i < head.len()
            invariant
                i <= head.len(),
                all == write_views(head@ + index@ + workspace@),
                overlay_fits(out@, all.take(i as int)),
            decreases head.len() - i,
        {
            let ghost done = all.take(i as int);
            put_file(&mut out, copy_file(&head[i]), Ghost(done));
            proof {
                assert((head@ + index@ + workspace@)[i as int] == head@[i as int]);
                assert(all.take(i + 1) =~= done.push(all[i as int]));
            }
            i = i + 1;
        }
        let ghost hl = head@.len() as int;
        let mut j: usize = 0;
        while j < index.len()
            invariant
                j <= index.len(),
                hl == head@.len(),
                all == write_views(head@ + index@ + workspace@),
                overlay_fits(out@, all.take(hl + j)),
            decreases index.len() - j,
        {
            let ghost done = all.take(hl + j);
            put_file(&mut out, copy_file(&index[j]), Ghost(done));
            proof {
                assert((head@ + index@ + workspace@)[hl + j] == index@[j as int]);
                assert(all.take(hl + j + 1) =~= done.push(all[hl + j]));
            }
            j = j + 1;
        }
        let ghost il = index@.len() as int;
        let mut k: usize = 0;
        while k < workspace.len()
            invariant
                k <= workspace.len(),
                hl == head@.len(),
                il == index@.len(),
                all == write_views(head@ + index@ + workspace@),
                overlay_fits(out@, all.take(hl + il + k)),
            decreases workspace.len() - k,
        {
            let ghost done = all.take(hl + il + k);
            put_file(&mut out, copy_file(&workspace[k]), Ghost(done));
            proof {
                assert((head@ + index@ + workspace@)[hl + il + k] == workspace@[k as int]);
                assert(all.take(hl + il + k + 1) =~= done.push(all[hl + il + k]));
            }
            k = k + 1;
        }
        proof {
            assert(all.take(hl + il + workspace@.len()) =~= all);
            lemma_in_order_is(file_paths(out@));
        }
        out
    }
}

/// Whether path `p` is the filter, or lies under it, or there is no filter.
pub open spec fn under_filter(p: Seq<char>, filter: Option<Seq<char>>) -> bool {
    match filter {
        Some(f) => p == f || (f + seq!['/']).is_prefix_of(p),
        None => true,
    }
}

/// Whether two dimensions show path `p` differently: one has it and the
/// other not, or both have it with other bytes.
pub open spec fn differs_at(f1: Seq<FileContent>, f2: Seq<FileContent>, p: Seq<char>) -> bool {
    holds(f1, p) != holds(f2, p) || (holds(f1, p) && data_at(f1, p) != data_at(f2, p))
}

/// The paths a diff of two dimensions covers.
pub open spec fn diff_set(f1: Seq<FileContent>, f2: Seq<FileContent>, filter: Option<Seq<char>>) -> Set<Seq<char>> {
    Set::new(|p: Seq<char>| (holds(f1, p) || holds(f2, p)) && under_filter(p, filter) && differs_at(f1, f2, p))
}

fn path_list(v: &Vec<FileContent>) -> (r: Vec<String>)
    ensures
        strs_view(r@) == file_paths(v@),
{
    let mut out: Vec<String> = Vec::new();
    let mut i: usize = 0;
    while i < v.len()
        invariant
            i <= v.len(),
            strs_view(out@) == file_paths(v@).take(i as int),
        decreases v.len() - i,
    {
        let ghost before = strs_view(out@);
        out.push(v[i].path.clone());
        proof {
            assert(strs_view(out@) =~= before.push(v@[i as int].path@));
            assert(file_paths(v@).take(i + 1) =~= file_paths(v@).take(i as int).push(v@[i as int].path@));
        }
        i = i + 1;
    }
    proof {
        assert(file_paths(v@).take(v.len() as int) =~= file_paths(v@));
    }
    out
}

impl ObserveSubsystem {
    /// The paths on which two dimensions' files differ, in order: every
    /// path either shows, kept when it is the filter (with forward
    /// slashes) or lies under it, and when one dimension lacks it or the
    /// bytes differ. The patches themselves are made from these.
    pub fn diff(files1: &Vec<FileContent>, files2: &Vec<FileContent>, path_filter: Option<&str>) -> (r: Vec<String>)
        requires
            distinct_paths(files1@),
            distinct_paths(files2@),
        ensures
            strs_view(r@) == in_order(
                diff_set(
                    files1@,
                    files2@,
                    match path_filter {
                        Some(f) => Some(replace_char(f@, '\\', seq!['/'])),
                        None => None,
                    },
                ),
            ),
    {
        let filter: Option<String> = match path_filter {
            Some(f) => Some(replace_all(f, '\\', "/")),
            None => None,
        };
        let ghost fv = opt_view(filter);
        proof {
            reveal_strlit("/");
            assert("/"@ =~= seq!['/']);
        }
        let under = match &filter {
            Some(f) => Some(crate::text::join2(f.as_str(), "/")),
            None => None,
        };
        proof {
            reveal_strlit("/");
            if filter is Some {
                assert(under.unwrap()@ =~= filter.unwrap()@ + seq!['/']);
            }
        }
        let p1 = path_list(files1);
        let p2 = path_list(files2);
        let all = merged_members(&p1, &p2);
        let ghost av = strs_view(all@);
        let ghost target = diff_set(files1@, files2@, fv);
        let mut out: Vec<String> = Vec::new();
        let mut i: usize = 0;
        proof {
            assert(strs_view(out@).to_set() =~= av.take(0).to_set().filter(|x: Seq<char>| target.contains(x)));
        }
        while i < all.len()
            invariant
                i <= all.len(),
                av == strs_view(all@),
                strictly_sorted_texts(av),
                distinct_paths(files1@),
                distinct_paths(files2@),
                match filter {
                    Some(f) => under matches Some(u) && u@ == f@ + seq!['/'],
                    None => under is None,
                },
                fv == opt_view(filter),
                target == diff_set(files1@, files2@, fv),
                strictly_sorted_texts(strs_view(out@)),
                forall|k: int|
                    0 <= k < strs_view(out@).len() ==> exists|j: int| 0 <= j < i && av[j] == #[trigger] strs_view(out@)[k],
                strs_view(out@).to_set() == av.take(i as int).to_set().filter(|x: Seq<char>| target.contains(x)),
            decreases all.len() - i,
        {
            let ghost before = strs_view(out@);
            let x = &all[i];
            proof {
                assert(av[i as int] == x@);
                assert(av.take(i + 1) =~= av.take(i as int).push(x@));
                av.take(i as int).lemma_push_to_set_commute(x@);
            }
            let in_scope = match (&filter, &under) {
                (Some(f), Some(u)) => str_eq(x.as_str(), f.as_str()) || crate::text::str_starts_with(x.as_str(), u.as_str()),
                _ => true,
            };
            let a = find_file(files1, x.as_str());
            let b = find_file(files2, x.as_str());
            let differs = match (a, b) {
                (Some(ka), Some(kb)) => !bytes_eq(&files1[ka].data, &files2[kb].data),
                (None, None) => false,
                _ => true,
            };
            proof {
                assert(in_scope == under_filter(x@, fv));
                assert(differs == differs_at(files1@, files2@, x@));
            }
            if in_scope && differs {
                out.push(x.clone());
                proof {
                    assert(strs_view(out@) =~= before.push(x@));
                    before.lemma_push_to_set_commute(x@);
                    assert forall|p: int, q: int| 0 <= p < q < strs_view(out@).len() implies path_lt(
                        #[trigger] strs_view(out@)[p],
                        #[trigger] strs_view(out@)[q],
                    ) by {
                        if q == before.len() {
                            let j = choose|j: int| 0 <= j < i && av[j] == before[p];
                            assert(path_lt(av[j], av[i as int]));
                        }
                    }
                    assert forall|k: int| 0 <= k < strs_view(out@).len() implies exists|j: int|
                        0 <= j < i + 1 && av[j] == #[trigger] strs_view(out@)[k] by {
                        if k < before.len() {
                            let j = choose|j: int| 0 <= j < i && av[j] == before[k];
                            assert(av[j] == strs_view(out@)[k]);
                        } else {
                            assert(av[i as int] == strs_view(out@)[k]);
                        }
                    }
                    assert(holds(files1@, x@) || holds(files2@, x@)) by {
                        if !holds(files1@, x@) && !holds(files2@, x@) {
                            assert(!differs_at(files1@, files2@, x@));
                        }
                    }
                    assert(strs_view(out@).to_set() =~= av.take(i + 1).to_set().filter(
                        |y: Seq<char>| target.contains(y),
                    ));
                }
            } else {
                proof {
                    assert(strs_view(out@).to_set() =~= av.take(i + 1).to_set().filter(
                        |y: Seq<char>| target.contains(y),
                    ));
                }
            }
            i = i + 1;
        }
        proof {
            assert(av.take(all.len() as int) =~= av);
            let pv1 = file_paths(files1@);
            let pv2 = file_paths(files2@);
            assert forall|x: Seq<char>| target.contains(x) implies av.to_set().contains(x) by {
                if holds(files1@, x) {
                    let k = choose|k: int| 0 <= k < files1@.len() && (#[trigger] files1@[k]).path@ == x;
                    assert(pv1[k] == x);
                    assert(pv1.to_set().contains(x));
                } else {
                    let k = choose|k: int| 0 <= k < files2@.len() && (#[trigger] files2@[k]).path@ == x;
                    assert(pv2[k] == x);
                    assert(pv2.to_set().contains(x));
                }
            }
            assert(strs_view(out@).to_set() =~= target);
            lemma_in_order_is(strs_view(out@));
        }
        out
    }
}

} // verus!
