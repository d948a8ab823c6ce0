//! The radar: which paths are being changed in which dimensions, and where
//! several dimensions are at work on the same path.
use vstd::prelude::*;
use crate::observe::{path_sorted, sort_paths};
use crate::agent::status::{lemma_path_lt_transitive, lemma_path_lt_trichotomy, path_lt, str_lt};
use crate::clock::{earlier, is_earlier, stamp_of, utc_at, utc_now, UtcTime};
use crate::territory::glob::{normalize_glob, normalized};
use crate::text::{clone_strings, join2, str_starts_with, opt_view, replace_all, replace_char, str_eq, strs_view};
use crate::agent::status::{entry_views, FileEntry, FileEntryView};

verus! {

broadcast use vstd::seq_lib::group_to_multiset_ensures;

// ---------------------------------------------------------------------------
// Texts in order
// ---------------------------------------------------------------------------

/// The texts are in order: none sorts before one that comes earlier.
pub open spec fn sorted_texts(s: Seq<Seq<char>>) -> bool {
    forall|i: int, j: int| 0 <= i < j < s.len() ==> !path_lt(#[trigger] s[j], #[trigger] s[i])
}

fn insert_sorted(out: &mut Vec<String>, x: String)
    requires
        sorted_texts(strs_view(old(out)@)),
    ensures
        sorted_texts(strs_view(final(out)@)),
        strs_view(final(out)@).to_multiset() == strs_view(old(out)@).to_multiset().insert(x@),
{
    let ghost s = strs_view(out@);
    let mut p: usize = 0;
    while p < out.len() && !str_lt(x.as_str(), out[p].as_str())
        invariant
            p <= out.len(),
            s == strs_view(out@),
            forall|k: int| 0 <= k < p ==> !path_lt(x@, #[trigger] s[k]),
        decreases out.len() - p,
    {
        assert(s[p as int] == out@[p as int]@);
        p = p + 1;
    }
    let ghost xv = x@;
    proof {
        if p < out.len() {
            assert(s[p as int] == out@[p as int]@);
            assert(path_lt(xv, s[p as int]));
        }
    }
    out.insert(p, x);
    proof {
        let t = strs_view(out@);
        assert(t =~= s.insert(p as int, xv));
        vstd::seq_lib::to_multiset_insert(s, p as int, xv);
        assert forall|i: int, j: int| 0 <= i < j < t.len() implies !path_lt(#[trigger] t[j], #[trigger] t[i]) by {
            if j < p {
                assert(t[i] == s[i] && t[j] == s[j]);
            } else if j == p {
                assert(t[j] == xv && t[i] == s[i]);
            } else if i < p {
                assert(t[j] == s[j - 1] && t[i] == s[i]);
                if i < j - 1 {
                    // s[i] <= s[j-1] already; nothing to add
                }
            } else if i == p {
                assert(t[i] == xv && t[j] == s[j - 1]);
                if path_lt(s[j - 1], xv) {
                    if j - 1 > p {
                        lemma_path_lt_transitive(s[j - 1], xv, s[p as int]);
                    } else {
                        lemma_path_lt_trichotomy(s[p as int], xv);
                    }
                }
            } else {
                assert(t[i] == s[i - 1] && t[j] == s[j - 1]);
            }
        }
    }
}

/// The texts sorted: in order, each as many times as given.
pub fn sort_strings(v: &Vec<String>) -> (r: Vec<String>)
    ensures
        sorted_texts(strs_view(r@)),
        strs_view(r@).to_multiset() == strs_view(v@).to_multiset(),
{
    let mut out: Vec<String> = Vec::new();
    let mut i: usize = 0;
    proof {
        assert(strs_view(v@).take(0) =~= Seq::<Seq<char>>::empty());
        assert(strs_view(out@) =~= Seq::<Seq<char>>::empty());
    }
    while i < v.len()
        invariant
            i <= v.len(),
            sorted_texts(strs_view(out@)),
            strs_view(out@).to_multiset() == strs_view(v@).take(i as int).to_multiset(),
        decreases v.len() - i,
    {
        proof {
            assert(strs_view(v@).take(i + 1) =~= strs_view(v@).take(i as int).push(v@[i as int]@));
            vstd::seq_lib::to_multiset_build(strs_view(v@).take(i as int), v@[i as int]@);
        }
        insert_sorted(&mut out, v[i].clone());
        i = i + 1;
    }
    proof {
        assert(strs_view(v@).take(v.len() as int) =~= strs_view(v@));
    }
    out
}

// ---------------------------------------------------------------------------
// Dimensions
// ---------------------------------------------------------------------------

/// The dimensions a scan covers: the mainline, then each directory found
/// under `dimensions` that is not the mainline, once.
pub open spec fn discovered(found: Seq<Seq<char>>) -> Seq<Seq<char>>
    decreases found.len(),
{
    if found.len() == 0 {
        seq!["mainline"@]
    } else {
        let prev = discovered(found.drop_last());
        let n = found.last();
        if n != "mainline"@ && !prev.contains(n) {
            prev.push(n)
        } else {
            prev
        }
    }
}

fn holds_text(v: &Vec<String>, x: &str) -> (r: bool)
    ensures
        r == strs_view(v@).contains(x@),
{
    crate::commands::agent::any_is(v, x)
}

/// The radar over a repository's dimensions.
pub struct RadarSubsystem {
    dft_dir: String,
}

impl RadarSubsystem {
    /// A radar over the repository whose metadata lies in `dft_dir`.
    pub fn new(dft_dir: &str) -> (r: Self)
        ensures
            r.dft_dir()@ == dft_dir@,
    {
        RadarSubsystem { dft_dir: String::from_str(dft_dir) }
    }

    pub closed spec fn dft_dir(&self) -> String {
        self.dft_dir
    }

    /// The directory whose subdirectories are the dimensions.
    pub fn dimensions_dir(&self) -> (r: String)
        ensures
            r@ == crate::text::path_joined(self.dft_dir()@, "dimensions"@),
    {
        crate::text::path_join(self.dft_dir.as_str(), "dimensions")
    }

    /// The dimensions to scan, sorted: the mainline and each directory found
    /// under `dimensions`, once each.
    pub fn discover_dimensions(found: &Vec<String>) -> (r: Vec<String>)
        ensures
            sorted_texts(strs_view(r@)),
            strs_view(r@).to_multiset() == discovered(strs_view(found@)).to_multiset(),
    {
        let ghost fv = strs_view(found@);
        let mut dims: Vec<String> = Vec::new();
        dims.push(String::from_str("mainline"));
        proof {
            reveal_strlit("mainline");
            assert(fv.take(0) =~= Seq::<Seq<char>>::empty());
            assert(strs_view(dims@) =~= seq!["mainline"@]);
        }
        let mut i: usize = 0;
        while i < found.len()
            invariant
                i <= found.len(),
                fv == strs_view(found@),
                strs_view(dims@) == discovered(fv.take(i as int)),
            decreases found.len() - i,
        {
            proof {
                assert(fv.take(i + 1).drop_last() =~= fv.take(i as int));
                assert(fv.take(i + 1).last() == found@[i as int]@);
                reveal_strlit("mainline");
            }
            let n = found[i].as_str();
            if !str_eq(n, "mainline") && !holds_text(&dims, n) {
                let ghost before = strs_view(dims@);
                dims.push(String::from_str(n));
                proof {
                    assert(strs_view(dims@) =~= before.push(n@));
                }
            }
            i = i + 1;
        }
        proof {
            assert(fv.take(found.len() as int) =~= fv);
        }
        sort_strings(&dims)
    }
}

// ---------------------------------------------------------------------------
// One dimension
// ---------------------------------------------------------------------------

/// An index entry with the modification time it records.
#[derive(Debug, Clone)]
pub struct RadarIndexEntry {
    pub path: String,
    pub oid: String,
    pub file_size: u32,
    pub mtime_secs: i64,
    pub mtime_nanos: u32,
}

pub struct RadarIndexEntryView {
    pub path: Seq<char>,
    pub oid: Seq<char>,
    pub file_size: u32,
    pub mtime_secs: i64,
    pub mtime_nanos: u32,
}

impl View for RadarIndexEntry {
    type V = RadarIndexEntryView;

    open spec fn view(&self) -> RadarIndexEntryView {
        RadarIndexEntryView {
            path: self.path@,
            oid: self.oid@,
            file_size: self.file_size,
            mtime_secs: self.mtime_secs,
            mtime_nanos: self.mtime_nanos,
        }
    }
}

pub open spec fn radar_index_views(v: Seq<RadarIndexEntry>) -> Seq<RadarIndexEntryView> {
    v.map_values(|e: RadarIndexEntry| e@)
}

/// A file found in the working tree: its path below the working directory,
/// its modification time and size where its metadata could be read, and the
/// id of its content where it was read.
#[derive(Debug, Clone)]
pub struct RadarWalkedFile {
    pub rel: String,
    pub mtime: Option<UtcTime>,
    pub disk_len: Option<u64>,
    pub content_oid: Option<String>,
}

pub struct RadarWalkedFileView {
    pub rel: Seq<char>,
    pub mtime: Option<UtcTime>,
    pub disk_len: Option<u64>,
    pub content_oid: Option<Seq<char>>,
}

impl View for RadarWalkedFile {
    type V = RadarWalkedFileView;

    open spec fn view(&self) -> RadarWalkedFileView {
        RadarWalkedFileView {
            rel: self.rel@,
            mtime: self.mtime,
            disk_len: self.disk_len,
            content_oid: opt_view(self.content_oid),
        }
    }
}

pub open spec fn radar_walked_views(v: Seq<RadarWalkedFile>) -> Seq<RadarWalkedFileView> {
    v.map_values(|w: RadarWalkedFile| w@)
}

/// The first head file with this path.
pub open spec fn head_file(h: Seq<FileEntryView>, p: Seq<char>, k: int) -> Option<FileEntryView>
    decreases h.len() - k,
{
    if k < 0 || k >= h.len() {
        None
    } else if h[k].path == p {
        Some(h[k])
    } else {
        head_file(h, p, k + 1)
    }
}

/// The first index entry with this path.
pub open spec fn index_file(x: Seq<RadarIndexEntryView>, p: Seq<char>, k: int) -> Option<RadarIndexEntryView>
    decreases x.len() - k,
{
    if k < 0 || k >= x.len() {
        None
    } else if x[k].path == p {
        Some(x[k])
    } else {
        index_file(x, p, k + 1)
    }
}

/// The index entries that differ from the last commit, with their times.
pub open spec fn index_events(h: Seq<FileEntryView>, x: Seq<RadarIndexEntryView>) -> Seq<(Seq<char>, Option<UtcTime>)>
    decreases x.len(),
{
    if x.len() == 0 {
        Seq::empty()
    } else {
        let e = x.last();
        let dirty = match head_file(h, e.path, 0) {
            Some(f) => e.oid != f.oid,
            None => true,
        };
        index_events(h, x.drop_last()) + (if dirty {
            seq![(e.path, stamp_of(e.mtime_secs, e.mtime_nanos))]
        } else {
            Seq::empty()
        })
    }
}

/// The files of the working tree that differ from their index entry, or
/// that the index does not hold, with their times.
pub open spec fn walk_events(x: Seq<RadarIndexEntryView>, ws: Seq<RadarWalkedFileView>) -> Seq<(Seq<char>, Option<UtcTime>)>
    decreases ws.len(),
{
    if ws.len() == 0 {
        Seq::empty()
    } else {
        let w = ws.last();
        let rel = replace_char(w.rel, '\\', "/"@);
        let active = match index_file(x, rel, 0) {
            Some(e) => match w.disk_len {
                Some(n) => n != e.file_size as u64 || (w.content_oid matches Some(o) && o != e.oid),
                None => false,
            },
            None => true,
        };
        walk_events(x, ws.drop_last()) + (if active {
            seq![(rel, w.mtime)]
        } else {
            Seq::empty()
        })
    }
}

/// The changes of a dimension, in the order they are found: the index
/// against the last commit, then the working tree against the index when
/// there is a working directory. A time that could not be read is `None`.
pub open spec fn dimension_events(
    h: Seq<FileEntryView>,
    x: Seq<RadarIndexEntryView>,
    ws: Seq<RadarWalkedFileView>,
    workdir_exists: bool,
) -> Seq<(Seq<char>, Option<UtcTime>)> {
    index_events(h, x) + (if workdir_exists {
        walk_events(x, ws)
    } else {
        Seq::empty()
    })
}

/// The paths of the events, each once, in the order of their first event.
pub open spec fn event_paths(ev: Seq<(Seq<char>, Option<UtcTime>)>) -> Seq<Seq<char>>
    decreases ev.len(),
{
    if ev.len() == 0 {
        Seq::empty()
    } else {
        let prev = event_paths(ev.drop_last());
        if prev.contains(ev.last().0) {
            prev
        } else {
            prev.push(ev.last().0)
        }
    }
}

/// The time of the last event on path `p`, if there is one: `Some(None)`
/// when that event's time could not be read.
pub open spec fn last_time(ev: Seq<(Seq<char>, Option<UtcTime>)>, p: Seq<char>) -> Option<Option<UtcTime>>
    decreases ev.len(),
{
    if ev.len() == 0 {
        None
    } else if ev.last().0 == p {
        Some(ev.last().1)
    } else {
        last_time(ev.drop_last(), p)
    }
}

proof fn lemma_event_paths_distinct(ev: Seq<(Seq<char>, Option<UtcTime>)>)
    ensures
        forall|i: int, j: int|
            0 <= i < j < event_paths(ev).len() ==> #[trigger] event_paths(ev)[i] != #[trigger] event_paths(ev)[j],
    decreases ev.len(),
{
    if ev.len() > 0 {
        lemma_event_paths_distinct(ev.drop_last());
        let prev = event_paths(ev.drop_last());
        if !prev.contains(ev.last().0) {
            assert forall|i: int, j: int|
                0 <= i < j < event_paths(ev).len() implies #[trigger] event_paths(ev)[i] != #[trigger] event_paths(
                ev,
            )[j] by {
                if j == prev.len() {
                    assert(event_paths(ev)[i] == prev[i]);
                } else {
                    assert(event_paths(ev)[i] == prev[i] && event_paths(ev)[j] == prev[j]);
                }
            }
        }
    }
}

/// Whether the index entry `e` is a change against the last commit `h`:
/// the commit has no file at its path, or every file it has there has
/// another object.
pub open spec fn staged_change(h: Seq<FileEntryView>, e: RadarIndexEntryView) -> bool {
    forall|j: int| 0 <= j < h.len() && (#[trigger] h[j]).path == e.path ==> h[j].oid != e.oid
}

proof fn lemma_head_file_is(h: Seq<FileEntryView>, p: Seq<char>, k: int)
    requires
        0 <= k,
    ensures
        match head_file(h, p, k) {
            Some(f) => exists|j: int| k <= j < h.len() && #[trigger] h[j] == f && f.path == p,
            None => forall|j: int| k <= j < h.len() ==> (#[trigger] h[j]).path != p,
        },
    decreases h.len() - k,
{
    if k < h.len() && h[k].path != p {
        lemma_head_file_is(h, p, k + 1);
    }
}

/// The paths of the events are among the paths kept, each once.
proof fn lemma_event_paths_cover(ev: Seq<(Seq<char>, Option<UtcTime>)>)
    ensures
        forall|k: int| 0 <= k < ev.len() ==> event_paths(ev).contains(#[trigger] ev[k].0),
    decreases ev.len(),
{
    if ev.len() > 0 {
        let w = ev.drop_last();
        lemma_event_paths_cover(w);
        let prev = event_paths(w);
        assert forall|k: int| 0 <= k < ev.len() implies event_paths(ev).contains(#[trigger] ev[k].0) by {
            if k < w.len() {
                assert(w[k] == ev[k]);
                let j = choose|j: int| 0 <= j < prev.len() && prev[j] == w[k].0;
                if !prev.contains(ev.last().0) {
                    assert(event_paths(ev)[j] == prev[j]);
                }
            } else if !prev.contains(ev.last().0) {
                assert(event_paths(ev)[prev.len() as int] == ev.last().0);
            }
        }
    }
}

/// Every index entry that is a change against the last commit has an event.
proof fn lemma_index_events_cover(h: Seq<FileEntryView>, x: Seq<RadarIndexEntryView>)
    ensures
        forall|i: int|
            0 <= i < x.len() && staged_change(h, #[trigger] x[i]) ==> exists|k: int|
                0 <= k < index_events(h, x).len() && (#[trigger] index_events(h, x)[k]).0 == x[i].path,
    decreases x.len(),
{
    if x.len() > 0 {
        let w = x.drop_last();
        lemma_index_events_cover(h, w);
        let e = x.last();
        lemma_head_file_is(h, e.path, 0);
        let prev = index_events(h, w);
        let changed = match head_file(h, e.path, 0) {
            Some(f) => e.oid != f.oid,
            None => true,
        };
        let tail = if changed {
            seq![(e.path, stamp_of(e.mtime_secs, e.mtime_nanos))]
        } else {
            Seq::empty()
        };
        assert(index_events(h, x) == prev + tail);
        assert forall|i: int|
            0 <= i < x.len() && staged_change(h, #[trigger] x[i]) implies exists|k: int|
                0 <= k < index_events(h, x).len() && (#[trigger] index_events(h, x)[k]).0 == x[i].path by {
            if i < w.len() {
                assert(w[i] == x[i]);
                let k = choose|k: int| 0 <= k < prev.len() && (#[trigger] prev[k]).0 == w[i].path;
                assert(index_events(h, x)[k] == prev[k]);
            } else {
                assert(x[i] == e);
                assert(changed);
                assert(index_events(h, x)[prev.len() as int] == tail[0]);
            }
        }
    }
}

/// A dimension scan reports every path of its index that the last commit
/// does not hold, or holds only with other objects.
pub proof fn lemma_scan_reports_staged(
    h: Seq<FileEntryView>,
    x: Seq<RadarIndexEntryView>,
    ws: Seq<RadarWalkedFileView>,
    workdir_exists: bool,
)
    ensures
        forall|i: int|
            0 <= i < x.len() && staged_change(h, #[trigger] x[i]) ==> event_paths(
                dimension_events(h, x, ws, workdir_exists),
            ).contains(x[i].path),
{
    let ev = dimension_events(h, x, ws, workdir_exists);
    let ie = index_events(h, x);
    lemma_index_events_cover(h, x);
    lemma_event_paths_cover(ev);
    assert forall|i: int|
        0 <= i < x.len() && staged_change(h, #[trigger] x[i]) implies event_paths(ev).contains(x[i].path) by {
        let k = choose|k: int| 0 <= k < ie.len() && (#[trigger] ie[k]).0 == x[i].path;
        assert(ev[k] == ie[k]);
    }
}

/// A path being changed, and when it last was.
#[derive(Debug, Clone)]
pub struct ActiveFile {
    pub path: String,
    pub mtime: UtcTime,
}

pub open spec fn active_paths(v: Seq<ActiveFile>) -> Seq<Seq<char>> {
    v.map_values(|a: ActiveFile| a.path@)
}

/// Whether the active files are those of the events: each path once, in
/// the order of its first event, with the time of its last event where that
/// could be read.
pub open spec fn active_fits(r: Seq<ActiveFile>, ev: Seq<(Seq<char>, Option<UtcTime>)>) -> bool {
    &&& active_paths(r) == event_paths(ev)
    &&& forall|k: int|
        0 <= k < r.len() ==> (last_time(ev, (#[trigger] r[k]).path@) matches Some(Some(t)) ==> r[k].mtime
            == t)
}

fn record_event(out: &mut Vec<ActiveFile>, path: String, mtime: UtcTime, ghost_ev: Ghost<Seq<(Seq<char>, Option<UtcTime>)>>, stamp: Ghost<Option<UtcTime>>)
    requires
        active_fits(old(out)@, ghost_ev@),
        stamp@ matches Some(t) ==> t == mtime,
    ensures
        active_fits(final(out)@, ghost_ev@.push((path@, stamp@))),
{
    let ghost ev = ghost_ev@;
    let ghost nev = ev.push((path@, stamp@));
    let ghost before = out@;
    proof {
        assert(nev.drop_last() =~= ev);
        lemma_event_paths_distinct(ev);
    }
    let mut k: usize = 0;
    while k < out.len()
        invariant
            k <= out.len(),
            out@ == before,
            active_fits(before, ev),
            ev == ghost_ev@,
            nev == ev.push((path@, stamp@)),
            nev.drop_last() == ev,
            stamp@ matches Some(t) ==> t == mtime,
            forall|j: int| 0 <= j < k ==> (#[trigger] out@[j]).path@ != path@,
        decreases out.len() - k,
    {
        proof {
            lemma_event_paths_distinct(ev);
        }
        if str_eq(out[k].path.as_str(), path.as_str()) {
            let ghost old_k = out@[k as int];
            out.set(k, ActiveFile { path, mtime });
            proof {
                assert(active_paths(before)[k as int] == old_k.path@);
                assert(event_paths(ev)[k as int] == old_k.path@);
                assert(event_paths(ev).contains(old_k.path@));
                assert(active_paths(out@) =~= active_paths(before));
                assert forall|j: int| 0 <= j < out@.len() implies (last_time(nev, (#[trigger] out@[j]).path@)
                    matches Some(Some(t)) ==> out@[j].mtime == t) by {
                    if j == k {
                        assert(nev.last() == (path@, stamp@));
                    }
                    if j != k {
                        assert(out@[j] == before[j]);
                        assert(active_paths(before)[j] == before[j].path@);
                        if j < k {
                            assert(event_paths(ev)[j] != event_paths(ev)[k as int]);
                        } else {
                            assert(event_paths(ev)[k as int] != event_paths(ev)[j]);
                        }
                    }
                }
            }
            return;
        }
        k = k + 1;
    }
    let ghost p = path@;
    out.push(ActiveFile { path, mtime });
    proof {
        assert forall|j: int| 0 <= j < event_paths(ev).len() implies event_paths(ev)[j] != p by {
            assert(active_paths(before)[j] == before[j].path@);
        }
        assert(active_paths(out@) =~= active_paths(before).push(p));
        assert forall|j: int| 0 <= j < out@.len() implies (last_time(nev, (#[trigger] out@[j]).path@)
            matches Some(Some(t)) ==> out@[j].mtime == t) by {
            if j < before.len() {
                assert(out@[j] == before[j]);
            }
        }
    }
}

fn find_head_file(head: &Vec<FileEntry>, p: &str) -> (r: Option<usize>)
    ensures
        match r {
            Some(k) => k < head@.len() && head_file(entry_views(head@), p@, 0) == Some(head@[k as int]@),
            None => head_file(entry_views(head@), p@, 0) is None,
        },
{
    let ghost hv = entry_views(head@);
    let mut i: usize = 0;
    while i < head.len()
        invariant
            i <= head.len(),
            hv == entry_views(head@),
            head_file(hv, p@, 0) == head_file(hv, p@, i as int),
        decreases head.len() - i,
    {
        assert(hv[i as int] == head@[i as int]@);
        if str_eq(head[i].path.as_str(), p) {
            return Some(i);
        }
        i = i + 1;
    }
    None
}

fn find_index_file(index: &Vec<RadarIndexEntry>, p: &str) -> (r: Option<usize>)
    ensures
        match r {
            Some(k) => k < index@.len() && index_file(radar_index_views(index@), p@, 0) == Some(index@[k as int]@),
            None => index_file(radar_index_views(index@), p@, 0) is None,
        },
{
    let ghost xv = radar_index_views(index@);
    let mut i: usize = 0;
    while i < index.len()
        invariant
            i <= index.len(),
            xv == radar_index_views(index@),
            index_file(xv, p@, 0) == index_file(xv, p@, i as int),
        decreases index.len() - i,
    {
        assert(xv[i as int] == index@[i as int]@);
        if str_eq(index[i].path.as_str(), p) {
            return Some(i);
        }
        i = i + 1;
    }
    None
}

fn time_or_now(t: Option<UtcTime>) -> (r: UtcTime)
    ensures
        t matches Some(x) ==> r == x,
{
    match t {
        Some(x) => x,
        None => utc_now(),
    }
}

impl RadarSubsystem {
    /// The paths being changed in one dimension, each once in the order its
    /// first change is found, with the time of its last change: the index
    /// entries that differ from the last commit (at the time the index
    /// records), then the files of the working tree that differ from their
    /// index entry or that the index does not hold (at their modification
    /// time). A time that cannot be read is the time of the scan.
    pub fn scan_dimension(
        head: &Vec<FileEntry>,
        index: &Vec<RadarIndexEntry>,
        walked: &Vec<RadarWalkedFile>,
        workdir_exists: bool,
    ) -> (r: Vec<ActiveFile>)
        ensures
            active_fits(
                r@,
                dimension_events(
                    entry_views(head@),
                    radar_index_views(index@),
                    radar_walked_views(walked@),
                    workdir_exists,
                ),
            ),
            forall|i: int|
                0 <= i < index@.len() && staged_change(entry_views(head@), (#[trigger] index@[i])@)
                    ==> active_paths(r@).contains(index@[i]@.path),
    {
        let ghost hv = entry_views(head@);
        let ghost xv = radar_index_views(index@);
        let ghost wv = radar_walked_views(walked@);
        let mut out: Vec<ActiveFile> = Vec::new();
        let mut i: usize = 0;
        proof {
            assert(xv.take(0) =~= Seq::<RadarIndexEntryView>::empty());
            assert(active_paths(out@) =~= Seq::<Seq<char>>::empty());
        }
        while i < index.len()
            invariant
                i <= index.len(),
                hv == entry_views(head@),
                xv == radar_index_views(index@),
                active_fits(out@, index_events(hv, xv.take(i as int))),
            decreases index.len() - i,
        {
            let e = &index[i];
            proof {
                assert(xv.take(i + 1).drop_last() =~= xv.take(i as int));
                assert(xv.take(i + 1).last() == e@);
            }
            let dirty = match find_head_file(head, e.path.as_str()) {
                Some(k) => !str_eq(e.oid.as_str(), head[k].oid.as_str()),
                None => true,
            };
            let ghost prev = index_events(hv, xv.take(i as int));
            if dirty {
                let stamp = utc_at(e.mtime_secs, e.mtime_nanos);
                let t = time_or_now(stamp);
                record_event(&mut out, e.path.clone(), t, Ghost(prev), Ghost(stamp));
                proof {
                    assert(prev.push((e@.path, stamp)) =~= index_events(hv, xv.take(i + 1)));
                }
            } else {
                proof {
                    assert(prev =~= index_events(hv, xv.take(i + 1)));
                }
            }
            i = i + 1;
        }
        proof {
            assert(xv.take(index.len() as int) =~= xv);
        }
        let ghost base = index_events(hv, xv);
        if workdir_exists {
            let mut j: usize = 0;
            proof {
                assert(wv.take(0) =~= Seq::<RadarWalkedFileView>::empty());
                assert(base + walk_events(xv, wv.take(0)) =~= base);
            }
            while j < walked.len()
                invariant
                    j <= walked.len(),
                    xv == radar_index_views(index@),
                    wv == radar_walked_views(walked@),
                    active_fits(out@, base + walk_events(xv, wv.take(j as int))),
                decreases walked.len() - j,
            {
                let w = &walked[j];
                proof {
                    assert(wv.take(j + 1).drop_last() =~= wv.take(j as int));
                    assert(wv.take(j + 1).last() == w@);
                }
                let rel = replace_all(w.rel.as_str(), '\\', "/");
                let active = match find_index_file(index, rel.as_str()) {
                    Some(k) => match w.disk_len {
                        Some(n) => n != index[k].file_size as u64 || match &w.content_oid {
                            Some(o) => !str_eq(o.as_str(), index[k].oid.as_str()),
                            None => false,
                        },
                        None => false,
                    },
                    None => true,
                };
                let ghost prev = base + walk_events(xv, wv.take(j as int));
                if active {
                    let t = time_or_now(w.mtime);
                    let ghost p = rel@;
                    record_event(&mut out, rel, t, Ghost(prev), Ghost(w.mtime));
                    proof {
                        assert(prev.push((p, w@.mtime)) =~= base + walk_events(xv, wv.take(j + 1)));
                    }
                } else {
                    proof {
                        assert(prev =~= base + walk_events(xv, wv.take(j + 1)));
                    }
                }
                j = j + 1;
            }
            proof {
                assert(wv.take(walked.len() as int) =~= wv);
            }
        } else {
            proof {
                assert(base + Seq::<(Seq<char>, Option<UtcTime>)>::empty() =~= base);
            }
        }
        proof {
            let xv0 = radar_index_views(index@);
            lemma_scan_reports_staged(hv, xv0, wv, workdir_exists);
            assert forall|i: int| 0 <= i < index@.len() implies xv0[i] == (#[trigger] index@[i])@ by {}
        }
        out
    }
}

// ---------------------------------------------------------------------------
// Across dimensions
// ---------------------------------------------------------------------------

/// The texts strictly in order: each sorts before every later one.
pub open spec fn strictly_sorted_texts(s: Seq<Seq<char>>) -> bool {
    forall|i: int, j: int| 0 <= i < j < s.len() ==> path_lt(#[trigger] s[i], #[trigger] s[j])
}

/// The members of a finite set of texts, in order.
pub open spec fn in_order(set: Set<Seq<char>>) -> Seq<Seq<char>> {
    choose|q: Seq<Seq<char>>| strictly_sorted_texts(q) && q.to_set() == set
}

/// Two sequences strictly in order with the same members are the same.
pub proof fn lemma_in_order_unique(a: Seq<Seq<char>>, b: Seq<Seq<char>>)
    requires
        strictly_sorted_texts(a),
        strictly_sorted_texts(b),
        a.to_set() == b.to_set(),
    ensures
        a == b,
    decreases a.len() + b.len(),
{
    if a.len() == 0 || b.len() == 0 {
        if a.len() > 0 {
            assert(a.to_set().contains(a[0]));
        }
        if b.len() > 0 {
            assert(b.to_set().contains(b[0]));
        }
        assert(a =~= b);
    } else {
        assert(a.to_set().contains(a[0]));
        assert(b.to_set().contains(b[0]));
        let ia = choose|i: int| 0 <= i < a.len() && a[i] == b[0];
        let ib = choose|i: int| 0 <= i < b.len() && b[i] == a[0];
        if a[0] != b[0] {
            assert(ia > 0 && ib > 0);
            assert(path_lt(a[0], a[ia]));
            assert(path_lt(b[0], b[ib]));
            lemma_path_lt_trichotomy(a[0], b[0]);
        }
        let ta = a.drop_first();
        let tb = b.drop_first();
        assert forall|x: Seq<char>| ta.to_set().contains(x) implies tb.to_set().contains(x) by {
            let i = choose|i: int| 0 <= i < ta.len() && ta[i] == x;
            assert(a[i + 1] == x);
            assert(b.to_set().contains(x));
            let j = choose|j: int| 0 <= j < b.len() && b[j] == x;
            assert(path_lt(a[0], a[i + 1]));
            if j == 0 {
                lemma_path_lt_trichotomy(a[0], x);
            }
            assert(tb[j - 1] == x);
        }
        assert forall|x: Seq<char>| tb.to_set().contains(x) implies ta.to_set().contains(x) by {
            let i = choose|i: int| 0 <= i < tb.len() && tb[i] == x;
            assert(b[i + 1] == x);
            assert(a.to_set().contains(x));
            let j = choose|j: int| 0 <= j < a.len() && a[j] == x;
            assert(path_lt(b[0], b[i + 1]));
            if j == 0 {
                lemma_path_lt_trichotomy(b[0], x);
            }
            assert(ta[j - 1] == x);
        }
        assert(ta.to_set() =~= tb.to_set());
        lemma_in_order_unique(ta, tb);
        assert(a =~= seq![a[0]] + ta);
        assert(b =~= seq![b[0]] + tb);
    }
}

/// Sorted texts without repeats: strictly in order, with the same members.
pub fn dedup_sorted(v: &Vec<String>) -> (r: Vec<String>)
    requires
        sorted_texts(strs_view(v@)),
    ensures
        strictly_sorted_texts(strs_view(r@)),
        strs_view(r@).to_set() == strs_view(v@).to_set(),
{
    let ghost vv = strs_view(v@);
    let mut out: Vec<String> = Vec::new();
    let mut i: usize = 0;
    proof {
        assert(strs_view(out@).to_set() =~= vv.take(0).to_set());
    }
    while i < v.len()
        invariant
            i <= v.len(),
            vv == strs_view(v@),
            sorted_texts(vv),
            strictly_sorted_texts(strs_view(out@)),
            strs_view(out@).to_set() == vv.take(i as int).to_set(),
            i > 0 ==> strs_view(out@).len() > 0 && strs_view(out@).last() == vv[i - 1],
            i == 0 ==> strs_view(out@).len() == 0,
        decreases v.len() - i,
    {
        let ghost before = strs_view(out@);
        assert(vv[i as int] == v@[i as int]@);
        let repeat = out.len() > 0 && str_eq(out[out.len() - 1].as_str(), v[i].as_str());
        if !repeat {
            out.push(v[i].clone());
            proof {
                let after = strs_view(out@);
                assert(after =~= before.push(vv[i as int]));
                if i > 0 {
                    assert(!path_lt(vv[i as int], vv[i - 1]));
                    lemma_path_lt_trichotomy(vv[i - 1], vv[i as int]);
                    assert forall|a: int, b: int| 0 <= a < b < after.len() implies path_lt(
                        #[trigger] after[a],
                        #[trigger] after[b],
                    ) by {
                        if b == after.len() - 1 && a < before.len() - 1 {
                            lemma_path_lt_transitive(after[a], before.last(), vv[i as int]);
                        }
                    }
                }
            }
        } else {
            assert(strs_view(out@).last() == vv[i as int]);
        }
        proof {
            assert(vv.take(i + 1) =~= vv.take(i as int).push(vv[i as int]));
            vv.take(i as int).lemma_push_to_set_commute(vv[i as int]);
            before.lemma_push_to_set_commute(vv[i as int]);
            if repeat {
                assert(before.to_set().contains(vv[i as int])) by {
                    assert(before[before.len() - 1] == vv[i as int]);
                }
                assert(vv.take(i as int).to_set().insert(vv[i as int]) =~= vv.take(i as int).to_set());
            }
            assert(strs_view(out@).to_set() =~= vv.take(i + 1).to_set());
        }
        i = i + 1;
    }
    proof {
        assert(vv.take(v.len() as int) =~= vv);
    }
    out
}

/// What one dimension's scan found.
#[derive(Debug, Clone)]
pub struct DimensionScan {
    pub dimension: String,
    pub files: Vec<ActiveFile>,
}

/// A path and what the radar knows of it: the dimensions changing it, how
/// many they are, whether that makes it a hot zone, and when it was last
/// changed.
#[derive(Debug, Clone)]
pub struct PathActivity {
    pub path: String,
    pub dimensions: Vec<String>,
    pub touch_count: usize,
    pub is_hot: bool,
    pub last_modified: UtcTime,
}

pub struct PathActivityView {
    pub path: Seq<char>,
    pub dimensions: Seq<Seq<char>>,
    pub touch_count: usize,
    pub is_hot: bool,
    pub last_modified: UtcTime,
}

impl View for PathActivity {
    type V = PathActivityView;

    open spec fn view(&self) -> PathActivityView {
        PathActivityView {
            path: self.path@,
            dimensions: strs_view(self.dimensions@),
            touch_count: self.touch_count,
            is_hot: self.is_hot,
            last_modified: self.last_modified,
        }
    }
}

pub open spec fn activity_views(v: Seq<PathActivity>) -> Seq<PathActivityView> {
    v.map_values(|a: PathActivity| a@)
}

/// What a scan of every dimension found: the dimensions scanned, how many
/// paths are being changed, the hot zones and every active path.
#[derive(Debug, Clone)]
pub struct RadarReport {
    pub scanned_dimensions: Vec<String>,
    pub total_active_files: usize,
    pub hot_zones: Vec<PathActivity>,
    pub activities: Vec<PathActivity>,
}

/// One change found: the dimension, the path and its time.
pub struct Occurrence {
    pub dimension: String,
    pub path: String,
    pub mtime: UtcTime,
}

pub open spec fn occ_view(o: Occurrence) -> (Seq<char>, Seq<char>, UtcTime) {
    (o.dimension@, o.path@, o.mtime)
}

/// Every change found, dimension by dimension, in order.
pub open spec fn occurrences(rs: Seq<DimensionScan>) -> Seq<(Seq<char>, Seq<char>, UtcTime)>
    decreases rs.len(),
{
    if rs.len() == 0 {
        Seq::empty()
    } else {
        occurrences(rs.drop_last()) + rs.last().files@.map_values(
            |f: ActiveFile| (rs.last().dimension@, f.path@, f.mtime),
        )
    }
}

/// The paths changed anywhere.
pub open spec fn changed_paths(occ: Seq<(Seq<char>, Seq<char>, UtcTime)>) -> Set<Seq<char>> {
    Set::new(|p: Seq<char>| exists|k: int| 0 <= k < occ.len() && (#[trigger] occ[k]).1 == p)
}

/// The dimensions changing path `p`.
pub open spec fn changing_dims(occ: Seq<(Seq<char>, Seq<char>, UtcTime)>, p: Seq<char>) -> Set<Seq<char>> {
    Set::new(|d: Seq<char>| exists|k: int| 0 <= k < occ.len() && (#[trigger] occ[k]).1 == p && occ[k].0 == d)
}

/// The last time path `p` was changed: the first time found, replaced by
/// each later one.
pub open spec fn latest(occ: Seq<(Seq<char>, Seq<char>, UtcTime)>, p: Seq<char>) -> Option<UtcTime>
    decreases occ.len(),
{
    if occ.len() == 0 {
        None
    } else {
        let prev = latest(occ.drop_last(), p);
        if occ.last().1 == p {
            match prev {
                Some(m) => if earlier(m, occ.last().2) {
                    Some(occ.last().2)
                } else {
                    Some(m)
                },
                None => Some(occ.last().2),
            }
        } else {
            prev
        }
    }
}

/// What the radar says of path `p`.
pub open spec fn activity_of(occ: Seq<(Seq<char>, Seq<char>, UtcTime)>, p: Seq<char>, threshold: usize) -> PathActivityView {
    let dims = in_order(changing_dims(occ, p));
    PathActivityView {
        path: p,
        dimensions: dims,
        touch_count: dims.len() as usize,
        is_hot: dims.len() >= threshold,
        last_modified: match latest(occ, p) {
            Some(t) => t,
            None => UtcTime { secs: 0, nanos: 0 },
        },
    }
}

/// Every changed path with what the radar says of it, in path order.
pub open spec fn activity_table(occ: Seq<(Seq<char>, Seq<char>, UtcTime)>, threshold: usize) -> Seq<PathActivityView> {
    in_order(changed_paths(occ)).map_values(|p: Seq<char>| activity_of(occ, p, threshold))
}

/// The rows that are hot zones, in order.
pub open spec fn hot_rows(t: Seq<PathActivityView>) -> Seq<PathActivityView>
    decreases t.len(),
{
    if t.len() == 0 {
        Seq::empty()
    } else {
        hot_rows(t.drop_last()) + (if t.last().is_hot {
            seq![t.last()]
        } else {
            Seq::empty()
        })
    }
}

/// The hot zones of a table are exactly its rows that are hot.
pub proof fn lemma_hot_rows(t: Seq<PathActivityView>)
    ensures
        forall|x: PathActivityView| hot_rows(t).contains(x) <==> (t.contains(x) && x.is_hot),
    decreases t.len(),
{
    if t.len() > 0 {
        let u = t.drop_last();
        lemma_hot_rows(u);
        let tail = if t.last().is_hot {
            seq![t.last()]
        } else {
            Seq::<PathActivityView>::empty()
        };
        assert(hot_rows(t) == hot_rows(u) + tail);
        assert forall|x: PathActivityView| hot_rows(t).contains(x) <==> (t.contains(x) && x.is_hot) by {
            if hot_rows(t).contains(x) {
                let k = choose|k: int| 0 <= k < hot_rows(t).len() && hot_rows(t)[k] == x;
                if k < hot_rows(u).len() {
                    assert(hot_rows(u)[k] == x);
                    assert(hot_rows(u).contains(x));
                    assert(u.contains(x));
                    let j = choose|j: int| 0 <= j < u.len() && u[j] == x;
                    assert(t[j] == x);
                } else {
                    assert(tail[k - hot_rows(u).len()] == x);
                    assert(x == t.last());
                    assert(t[t.len() - 1] == x);
                }
            }
            if t.contains(x) && x.is_hot {
                let j = choose|j: int| 0 <= j < t.len() && t[j] == x;
                if j < u.len() {
                    assert(u[j] == x);
                    assert(u.contains(x));
                    assert(hot_rows(u).contains(x));
                    let k = choose|k: int| 0 <= k < hot_rows(u).len() && hot_rows(u)[k] == x;
                    assert(hot_rows(t)[k] == x);
                } else {
                    assert(x == t.last());
                    assert(hot_rows(t)[hot_rows(t).len() - 1] == x);
                }
            }
        }
    }
}

/// A row of the table is hot exactly when as many dimensions as the
/// threshold change its path.
pub proof fn lemma_hot_means_threshold(occ: Seq<(Seq<char>, Seq<char>, UtcTime)>, threshold: usize)
    ensures
        forall|k: int|
            0 <= k < activity_table(occ, threshold).len() ==> (#[trigger] activity_table(occ, threshold)[k]).is_hot
                == (activity_table(occ, threshold)[k].dimensions.len() >= threshold),
{
}

/// The first row from `k` on with path `p`.
pub open spec fn row_from(t: Seq<PathActivityView>, p: Seq<char>, k: int) -> PathActivityView
    decreases t.len() - k,
{
    if k < 0 || k >= t.len() {
        t[0]
    } else if t[k].path == p {
        t[k]
    } else {
        row_from(t, p, k + 1)
    }
}

/// The rows for the given paths, in their order.
pub open spec fn rows_for(t: Seq<PathActivityView>, paths: Seq<Seq<char>>) -> Seq<PathActivityView> {
    paths.map_values(|p: Seq<char>| row_from(t, p, 0))
}

pub open spec fn row_paths(t: Seq<PathActivityView>) -> Seq<Seq<char>> {
    t.map_values(|a: PathActivityView| a.path)
}

/// Where a stable sort by falling count puts `x` among rows already in that
/// order: before the first one with a smaller count, searching from `k`.
pub open spec fn count_slot(s: Seq<PathActivityView>, x: PathActivityView, k: int) -> int
    decreases s.len() - k,
{
    if k < 0 || k >= s.len() {
        s.len() as int
    } else if s[k].touch_count < x.touch_count {
        k
    } else {
        count_slot(s, x, k + 1)
    }
}

/// The rows sorted by falling count, those with the same count in their
/// order.
pub open spec fn by_count(s: Seq<PathActivityView>) -> Seq<PathActivityView>
    decreases s.len(),
{
    if s.len() == 0 {
        Seq::empty()
    } else {
        let t = by_count(s.drop_last());
        t.insert(count_slot(t, s.last(), 0), s.last())
    }
}

/// The order of a report: the rows sorted by path (as `Path` compares
/// paths), then stably by falling count; so by falling count, then by path.
pub open spec fn report_order(t: Seq<PathActivityView>) -> Seq<PathActivityView> {
    by_count(rows_for(t, path_sorted(row_paths(t))))
}

proof fn lemma_count_slot(s: Seq<PathActivityView>, x: PathActivityView, k: int)
    requires
        0 <= k <= s.len(),
    ensures
        k <= count_slot(s, x, k) <= s.len(),
        forall|i: int| k <= i < count_slot(s, x, k) ==> (#[trigger] s[i]).touch_count >= x.touch_count,
        count_slot(s, x, k) < s.len() ==> s[count_slot(s, x, k)].touch_count < x.touch_count,
    decreases s.len() - k,
{
    if k < s.len() && s[k].touch_count >= x.touch_count {
        lemma_count_slot(s, x, k + 1);
    }
}

/// Sorting by count leaves no row before one with a larger count, and
/// keeps every row.
pub proof fn lemma_by_count_sorted(s: Seq<PathActivityView>)
    ensures
        forall|a: int, b: int|
            0 <= a < b < by_count(s).len() ==> (#[trigger] by_count(s)[a]).touch_count >= (
            #[trigger] by_count(s)[b]).touch_count,
        by_count(s).to_multiset() == s.to_multiset(),
    decreases s.len(),
{
    broadcast use vstd::seq_lib::group_to_multiset_ensures;
    if s.len() > 0 {
        let t = by_count(s.drop_last());
        let x = s.last();
        lemma_by_count_sorted(s.drop_last());
        lemma_count_slot(t, x, 0);
        let p = count_slot(t, x, 0);
        let u = t.insert(p, x);
        vstd::seq_lib::to_multiset_insert(t, p, x);
        assert(s =~= s.drop_last().push(x));
        vstd::seq_lib::to_multiset_build(s.drop_last(), x);
        assert forall|a: int, b: int| 0 <= a < b < u.len() implies (#[trigger] u[a]).touch_count >= (
        #[trigger] u[b]).touch_count by {
            if b < p {
                assert(u[a] == t[a] && u[b] == t[b]);
            } else if b == p {
                assert(u[a] == t[a] && u[b] == x);
            } else if a < p {
                assert(u[a] == t[a] && u[b] == t[b - 1]);
            } else if a == p {
                assert(u[a] == x && u[b] == t[b - 1]);
                if p < t.len() {
                    assert(t[p].touch_count < x.touch_count);
                }
            } else {
                assert(u[a] == t[a - 1] && u[b] == t[b - 1]);
            }
        }
    }
}

pub open spec fn occ_views(v: Seq<Occurrence>) -> Seq<(Seq<char>, Seq<char>, UtcTime)> {
    v.map_values(|o: Occurrence| occ_view(o))
}

/// Every change found, dimension by dimension.
fn flatten_scans(rs: &Vec<DimensionScan>) -> (r: Vec<Occurrence>)
    ensures
        occ_views(r@) == occurrences(rs@),
{
    let mut out: Vec<Occurrence> = Vec::new();
    let mut i: usize = 0;
    proof {
        assert(rs@.take(0) =~= Seq::<DimensionScan>::empty());
        assert(occ_views(out@) =~= occurrences(rs@.take(0)));
    }
    while i < rs.len()
        invariant
            i <= rs.len(),
            occ_views(out@) == occurrences(rs@.take(i as int)),
        decreases rs.len() - i,
    {
        let d = &rs[i];
        let ghost base = occ_views(out@);
        let ghost fv = d.files@.map_values(|f: ActiveFile| (d.dimension@, f.path@, f.mtime));
        let mut j: usize = 0;
        proof {
            assert(base + fv.take(0) =~= base);
        }
        while j < d.files.len()
            invariant
                j <= d.files.len(),
                fv == d.files@.map_values(|f: ActiveFile| (d.dimension@, f.path@, f.mtime)),
                occ_views(out@) == base + fv.take(j as int),
            decreases d.files.len() - j,
        {
            let ghost before = out@;
            let o = Occurrence {
                dimension: d.dimension.clone(),
                path: d.files[j].path.clone(),
                mtime: d.files[j].mtime,
            };
            assert(occ_view(o) == fv[j as int]);
            out.push(o);
            proof {
                assert(occ_views(out@) =~= occ_views(before).push(occ_view(o)));
                assert(fv.take(j + 1) =~= fv.take(j as int).push(fv[j as int]));
                assert(occ_views(out@) =~= base + fv.take(j + 1));
            }
            j = j + 1;
        }
        proof {
            assert(fv.take(d.files.len() as int) =~= fv);
            assert(rs@.take(i + 1).drop_last() =~= rs@.take(i as int));
            assert(rs@.take(i + 1).last() == rs@[i as int]);
        }
        i = i + 1;
    }
    proof {
        assert(rs@.take(rs.len() as int) =~= rs@);
    }
    out
}

/// A sequence strictly in order is the one `in_order` gives for its members.
pub proof fn lemma_in_order_is(q: Seq<Seq<char>>)
    requires
        strictly_sorted_texts(q),
    ensures
        in_order(q.to_set()) == q,
{
    let c = in_order(q.to_set());
    assert(strictly_sorted_texts(c) && c.to_set() == q.to_set());
    lemma_in_order_unique(c, q);
}

/// Sequences with the same members as multisets have the same members.
proof fn lemma_same_members(a: Seq<Seq<char>>, b: Seq<Seq<char>>)
    requires
        a.to_multiset() == b.to_multiset(),
    ensures
        a.to_set() == b.to_set(),
{
    assert forall|x: Seq<char>| a.to_set().contains(x) <==> b.to_set().contains(x) by {
        if a.contains(x) {
            assert(a.to_multiset().count(x) > 0);
        }
        if b.contains(x) {
            assert(b.to_multiset().count(x) > 0);
        }
    }
    assert(a.to_set() =~= b.to_set());
}

/// The paths of the changes found, each once, in order.
fn changed_path_list(occ: &Vec<Occurrence>) -> (r: Vec<String>)
    ensures
        strs_view(r@) == in_order(changed_paths(occ_views(occ@))),
{
    let ghost ov = occ_views(occ@);
    let mut all: Vec<String> = Vec::new();
    let mut i: usize = 0;
    while i < occ.len()
        invariant
            i <= occ.len(),
            ov == occ_views(occ@),
            all@.len() == i,
            forall|k: int| 0 <= k < i ==> (#[trigger] all@[k])@ == ov[k].1,
        decreases occ.len() - i,
    {
        all.push(occ[i].path.clone());
        i = i + 1;
    }
    let sorted = sort_strings(&all);
    let uniq = dedup_sorted(&sorted);
    proof {
        lemma_same_members(strs_view(sorted@), strs_view(all@));
        let av = strs_view(all@);
        assert forall|p: Seq<char>| av.to_set().contains(p) <==> changed_paths(ov).contains(p) by {
            if av.contains(p) {
                let k = choose|k: int| 0 <= k < av.len() && av[k] == p;
                assert(all@[k]@ == ov[k].1);
            }
            if changed_paths(ov).contains(p) {
                let k = choose|k: int| 0 <= k < ov.len() && (#[trigger] ov[k]).1 == p;
                assert(av[k] == p);
            }
        }
        assert(av.to_set() =~= changed_paths(ov));
        lemma_in_order_is(strs_view(uniq@));
    }
    uniq
}

/// The dimensions changing `p` among the first changes and one more.
proof fn lemma_changing_dims_step(occ: Seq<(Seq<char>, Seq<char>, UtcTime)>, k: int, p: Seq<char>)
    requires
        0 <= k < occ.len(),
    ensures
        changing_dims(occ.take(k + 1), p) == (if occ[k].1 == p {
            changing_dims(occ.take(k), p).insert(occ[k].0)
        } else {
            changing_dims(occ.take(k), p)
        }),
{
    let a = occ.take(k + 1);
    let b = occ.take(k);
    let rhs = if occ[k].1 == p {
        changing_dims(b, p).insert(occ[k].0)
    } else {
        changing_dims(b, p)
    };
    assert forall|d: Seq<char>| changing_dims(a, p).contains(d) <==> rhs.contains(d) by {
        if changing_dims(a, p).contains(d) {
            let j = choose|j: int| 0 <= j < a.len() && (#[trigger] a[j]).1 == p && a[j].0 == d;
            if j < k {
                assert(b[j] == a[j]);
            }
        }
        if changing_dims(b, p).contains(d) {
            let j = choose|j: int| 0 <= j < b.len() && (#[trigger] b[j]).1 == p && b[j].0 == d;
            assert(a[j] == b[j]);
        }
        if occ[k].1 == p && d == occ[k].0 {
            assert(a[k] == occ[k]);
        }
    }
    assert(changing_dims(a, p) =~= rhs);
}

/// A copy of a row.
fn copy_activity(a: &PathActivity) -> (r: PathActivity)
    ensures
        r@ == a@,
{
    PathActivity {
        path: a.path.clone(),
        dimensions: clone_strings(&a.dimensions),
        touch_count: a.touch_count,
        is_hot: a.is_hot,
        last_modified: a.last_modified,
    }
}

/// What the radar says of path `p`: the dimensions changing it, in order
/// and each once, their number, whether it reaches `threshold`, and the
/// latest time it was changed.
fn activity_for(occ: &Vec<Occurrence>, p: &String, threshold: usize) -> (r: PathActivity)
    ensures
        r@ == activity_of(occ_views(occ@), p@, threshold),
{
    let ghost ov = occ_views(occ@);
    let mut dims: Vec<String> = Vec::new();
    let mut last: Option<UtcTime> = None;
    let mut k: usize = 0;
    proof {
        assert(changing_dims(ov.take(0), p@) =~= Set::<Seq<char>>::empty());
        assert(strs_view(dims@).to_set() =~= Set::<Seq<char>>::empty());
    }
    while k < occ.len()
        invariant
            k <= occ.len(),
            ov == occ_views(occ@),
            strs_view(dims@).to_set() == changing_dims(ov.take(k as int), p@),
            last == latest(ov.take(k as int), p@),
        decreases occ.len() - k,
    {
        proof {
            lemma_changing_dims_step(ov, k as int, p@);
            assert(ov.take(k + 1).drop_last() =~= ov.take(k as int));
            assert(ov.take(k + 1).last() == ov[k as int]);
        }
        if str_eq(occ[k].path.as_str(), p.as_str()) {
            let ghost before = strs_view(dims@);
            dims.push(occ[k].dimension.clone());
            proof {
                assert(strs_view(dims@) =~= before.push(ov[k as int].0));
                before.lemma_push_to_set_commute(ov[k as int].0);
            }
            last = match last {
                Some(m) => if is_earlier(m, occ[k].mtime) {
                    Some(occ[k].mtime)
                } else {
                    Some(m)
                },
                None => Some(occ[k].mtime),
            };
        }
        k = k + 1;
    }
    proof {
        assert(ov.take(occ.len() as int) =~= ov);
    }
    let sorted = sort_strings(&dims);
    let uniq = dedup_sorted(&sorted);
    proof {
        lemma_same_members(strs_view(sorted@), strs_view(dims@));
        lemma_in_order_is(strs_view(uniq@));
    }
    let n = uniq.len();
    PathActivity {
        path: p.clone(),
        dimensions: uniq,
        touch_count: n,
        is_hot: n >= threshold,
        last_modified: match last {
            Some(t) => t,
            None => UtcTime { secs: 0, nanos: 0 },
        },
    }
}

/// The first row with path `p`.
fn find_row(rows: &Vec<PathActivity>, p: &str) -> (r: Option<usize>)
    ensures
        match r {
            Some(k) => k < rows@.len() && rows@[k as int]@ == row_from(activity_views(rows@), p@, 0),
            None => !row_paths(activity_views(rows@)).contains(p@),
        },
{
    let ghost rv = activity_views(rows@);
    let mut i: usize = 0;
    while i < rows.len()
        invariant
            i <= rows.len(),
            rv == activity_views(rows@),
            row_from(rv, p@, 0) == row_from(rv, p@, i as int),
            forall|j: int| 0 <= j < i ==> (#[trigger] rv[j]).path != p@,
        decreases rows.len() - i,
    {
        assert(rv[i as int] == rows@[i as int]@);
        if str_eq(rows[i].path.as_str(), p) {
            return Some(i);
        }
        i = i + 1;
    }
    proof {
        if row_paths(rv).contains(p@) {
            let k = choose|k: int| 0 <= k < row_paths(rv).len() && row_paths(rv)[k] == p@;
            assert(rv[k].path == p@);
        }
    }
    None
}

/// `x` put among rows already sorted by falling count, after every one with
/// a count as large.
fn insert_by_count(out: &mut Vec<PathActivity>, x: PathActivity)
    ensures
        activity_views(final(out)@) == activity_views(old(out)@).insert(
            count_slot(activity_views(old(out)@), x@, 0),
            x@,
        ),
{
    let ghost s = activity_views(out@);
    let mut p: usize = 0;
    while p < out.len() && out[p].touch_count >= x.touch_count
        invariant
            p <= out.len(),
            s == activity_views(out@),
            count_slot(s, x@, 0) == count_slot(s, x@, p as int),
        decreases out.len() - p,
    {
        assert(s[p as int] == out@[p as int]@);
        p = p + 1;
    }
    proof {
        if p < out.len() {
            assert(s[p as int] == out@[p as int]@);
        }
    }
    let ghost xv = x@;
    out.insert(p, x);
    proof {
        assert(activity_views(out@) =~= s.insert(p as int, xv));
    }
}

/// The rows sorted by path, then stably by falling count.
fn order_rows(rows: &Vec<PathActivity>) -> (r: Vec<PathActivity>)
    ensures
        activity_views(r@) == report_order(activity_views(rows@)),
        forall|a: int, b: int| 0 <= a < b < r@.len() ==> r@[a].touch_count >= r@[b].touch_count,
{
    let ghost rv = activity_views(rows@);
    let mut paths: Vec<String> = Vec::new();
    let mut i: usize = 0;
    while i < rows.len()
        invariant
            i <= rows.len(),
            rv == activity_views(rows@),
            strs_view(paths@) == row_paths(rv).take(i as int),
        decreases rows.len() - i,
    {
        let ghost before = strs_view(paths@);
        paths.push(rows[i].path.clone());
        proof {
            assert(strs_view(paths@) =~= before.push(rv[i as int].path));
            assert(row_paths(rv).take(i + 1) =~= row_paths(rv).take(i as int).push(row_paths(rv)[i as int]));
        }
        i = i + 1;
    }
    proof {
        assert(row_paths(rv).take(rows.len() as int) =~= row_paths(rv));
    }
    let sorted = sort_paths(paths);
    let ghost sv = strs_view(sorted@);
    let ghost by_path = rows_for(rv, sv);
    let mut listed: Vec<PathActivity> = Vec::new();
    let mut j: usize = 0;
    while j < sorted.len()
        invariant
            j <= sorted.len(),
            rv == activity_views(rows@),
            sv == strs_view(sorted@),
            sv.to_multiset() == row_paths(rv).to_multiset(),
            by_path == rows_for(rv, sv),
            activity_views(listed@) == by_path.take(j as int),
        decreases sorted.len() - j,
    {
        let ghost before = listed@;
        proof {
            broadcast use vstd::seq_lib::group_to_multiset_ensures;
            assert(sv[j as int] == sorted@[j as int]@);
            assert(sv.contains(sv[j as int]));
            assert(sv.to_multiset().count(sv[j as int]) > 0);
        }
        match find_row(rows, sorted[j].as_str()) {
            Some(k) => {
                let a = copy_activity(&rows[k]);
                listed.push(a);
                proof {
                    assert(activity_views(listed@) =~= activity_views(before).push(a@));
                    assert(by_path.take(j + 1) =~= by_path.take(j as int).push(by_path[j as int]));
                }
            },
            None => {
                proof {
                    broadcast use vstd::seq_lib::group_to_multiset_ensures;
                    assert(row_paths(rv).to_multiset().count(sv[j as int]) > 0);
                    assert(false);
                }
            },
        }
        j = j + 1;
    }
    proof {
        assert(by_path.take(sorted.len() as int) =~= by_path);
    }
    let ghost lv = activity_views(listed@);
    let mut out: Vec<PathActivity> = Vec::new();
    let mut k: usize = 0;
    proof {
        assert(lv.take(0) =~= Seq::<PathActivityView>::empty());
        assert(activity_views(out@) =~= by_count(lv.take(0)));
    }
    while k < listed.len()
        invariant
            k <= listed.len(),
            lv == activity_views(listed@),
            activity_views(out@) == by_count(lv.take(k as int)),
        decreases listed.len() - k,
    {
        proof {
            assert(lv.take(k + 1).drop_last() =~= lv.take(k as int));
            assert(lv.take(k + 1).last() == listed@[k as int]@);
        }
        insert_by_count(&mut out, copy_activity(&listed[k]));
        k = k + 1;
    }
    proof {
        assert(lv.take(listed.len() as int) =~= lv);
        lemma_by_count_sorted(lv);
        assert forall|a: int, b: int| 0 <= a < b < out@.len() implies out@[a].touch_count >= out@[b].touch_count by {
            assert(activity_views(out@)[a] == out@[a]@);
            assert(activity_views(out@)[b] == out@[b]@);
        }
    }
    out
}

impl RadarSubsystem {
    /// What the radar reports from the scans of the dimensions: every path
    /// being changed, with the dimensions changing it (in order, each once),
    /// their number, whether that reaches `threshold`, and the latest time
    /// it was changed; the hot zones among them; both sorted by falling
    /// count, then by path.
    pub fn scan(threshold: usize, dimensions: Vec<String>, results: &Vec<DimensionScan>) -> (r: RadarReport)
        ensures
            r.scanned_dimensions@ == dimensions@,
            activity_views(r.activities@) == report_order(activity_table(occurrences(results@), threshold)),
            activity_views(r.hot_zones@) == report_order(hot_rows(activity_table(occurrences(results@), threshold))),
            r.total_active_files == activity_table(occurrences(results@), threshold).len(),
            forall|a: int, b: int|
                0 <= a < b < r.activities@.len() ==> r.activities@[a].touch_count >= r.activities@[b].touch_count,
            forall|a: int, b: int|
                0 <= a < b < r.hot_zones@.len() ==> r.hot_zones@[a].touch_count >= r.hot_zones@[b].touch_count,
    {
        let occ = flatten_scans(results);
        let ghost ov = occ_views(occ@);
        let ghost tbl = activity_table(ov, threshold);
        let paths = changed_path_list(&occ);
        let mut rows: Vec<PathActivity> = Vec::new();
        let mut i: usize = 0;
        while i < paths.len()
            invariant
                i <= paths.len(),
                ov == occ_views(occ@),
                tbl == activity_table(ov, threshold),
                strs_view(paths@) == in_order(changed_paths(ov)),
                activity_views(rows@) == tbl.take(i as int),
            decreases paths.len() - i,
        {
            let ghost before = rows@;
            let a = activity_for(&occ, &paths[i], threshold);
            rows.push(a);
            proof {
                assert(strs_view(paths@)[i as int] == paths@[i as int]@);
                assert(activity_views(rows@) =~= activity_views(before).push(a@));
                assert(tbl.take(i + 1) =~= tbl.take(i as int).push(tbl[i as int]));
            }
            i = i + 1;
        }
        proof {
            assert(tbl.take(paths.len() as int) =~= tbl);
        }
        let mut hot: Vec<PathActivity> = Vec::new();
        let mut j: usize = 0;
        proof {
            assert(tbl.take(0) =~= Seq::<PathActivityView>::empty());
            assert(activity_views(hot@) =~= hot_rows(tbl.take(0)));
        }
        while j < rows.len()
            invariant
                j <= rows.len(),
                activity_views(rows@) == tbl,
                activity_views(hot@) == hot_rows(tbl.take(j as int)),
            decreases rows.len() - j,
        {
            proof {
                assert(tbl.take(j + 1).drop_last() =~= tbl.take(j as int));
                assert(tbl.take(j + 1).last() == rows@[j as int]@);
            }
            if rows[j].is_hot {
                let ghost before = hot@;
                let a = copy_activity(&rows[j]);
                hot.push(a);
                proof {
                    assert(activity_views(hot@) =~= activity_views(before).push(a@));
                    assert(hot_rows(tbl.take(j + 1)) =~= hot_rows(tbl.take(j as int)) + seq![a@]);
                }
            } else {
                proof {
                    assert(hot_rows(tbl.take(j + 1)) =~= hot_rows(tbl.take(j as int)));
                }
            }
            j = j + 1;
        }
        proof {
            assert(tbl.take(rows.len() as int) =~= tbl);
        }
        let total = rows.len();
        let hot_zones = order_rows(&hot);
        let activities = order_rows(&rows);
        RadarReport { scanned_dimensions: dimensions, total_active_files: total, hot_zones, activities }
    }
}

/// Whether an activity's path (with forward slashes) is `target` or lies
/// under it.
pub open spec fn path_matches(path: Seq<char>, target: Seq<char>) -> bool {
    let p = replace_char(path, '\\', seq!['/']);
    p == target || (target + seq!['/']).is_prefix_of(p)
}

/// The first activity whose path matches `target`.
pub open spec fn first_match(acts: Seq<PathActivityView>, target: Seq<char>) -> Option<PathActivityView>
    decreases acts.len(),
{
    if acts.len() == 0 {
        None
    } else if path_matches(acts[0].path, target) {
        Some(acts[0])
    } else {
        first_match(acts.drop_first(), target)
    }
}

impl RadarSubsystem {
    /// The first activity, in the order of a scan with threshold 1, whose
    /// path is `target` or lies under it; `target` is taken with forward
    /// slashes and without leading `./`.
    pub fn inspect_path(target: &str, dimensions: Vec<String>, results: &Vec<DimensionScan>) -> (r: Option<PathActivity>)
        ensures
            opt_activity_view(r) == first_match(
                report_order(activity_table(occurrences(results@), 1)),
                normalized(target@),
            ),
    {
        let report = Self::scan(1, dimensions, results);
        let t = normalize_glob(target);
        let under = join2(t.as_str(), "/");
        let ghost acts = activity_views(report.activities@);
        let mut i: usize = 0;
        proof {
            assert(acts.skip(0) =~= acts);
            reveal_strlit("/");
            assert(under@ =~= t@ + seq!['/']);
        }
        while i < report.activities.len()
            invariant
                i <= report.activities.len(),
                acts == activity_views(report.activities@),
                acts == report_order(activity_table(occurrences(results@), 1)),
                t@ == normalized(target@),
                under@ == t@ + seq!['/'],
                first_match(acts, t@) == first_match(acts.skip(i as int), t@),
            decreases report.activities.len() - i,
        {
            let a = &report.activities[i];
            proof {
                assert(acts.skip(i as int)[0] == a@);
                assert(acts.skip(i as int).drop_first() =~= acts.skip(i + 1));
            }
            let p = replace_all(a.path.as_str(), '\\', "/");
            proof {
                reveal_strlit("/");
                assert("/"@ =~= seq!['/']);
                assert(p@ == replace_char(a@.path, '\\', seq!['/']));
            }
            if str_eq(p.as_str(), t.as_str()) || str_starts_with(p.as_str(), under.as_str()) {
                proof {
                    assert(path_matches(a@.path, t@));
                }
                return Some(copy_activity(a));
            }
            i = i + 1;
        }
        None
    }
}

pub open spec fn opt_activity_view(o: Option<PathActivity>) -> Option<PathActivityView> {
    match o {
        Some(a) => Some(a@),
        None => None,
    }
}

// ---------------------------------------------------------------------------
// Watching
// ---------------------------------------------------------------------------

/// What a watch remembers of a path between two scans: the dimensions
/// changing it.
pub struct WatchEntry {
    pub path: String,
    pub dimensions: Vec<String>,
}

pub open spec fn state_view(v: Seq<WatchEntry>) -> Seq<(Seq<char>, Seq<Seq<char>>)> {
    v.map_values(|e: WatchEntry| (e.path@, strs_view(e.dimensions@)))
}

/// The state a report leaves: each active path with its dimensions.
pub open spec fn report_state(acts: Seq<PathActivityView>) -> Seq<(Seq<char>, Seq<Seq<char>>)> {
    acts.map_values(|a: PathActivityView| (a.path, a.dimensions))
}

/// What a watch tells of the scans.
pub enum RadarEvent {
    HotZoneEntered { path: String, dimensions: Vec<String>, touch_count: usize },
    HotZoneCleared { path: String, remaining_dimensions: Vec<String> },
    FileModified { dimension: String, path: String },
    FileReverted { dimension: String, path: String },
}

pub enum RadarEventView {
    HotZoneEntered { path: Seq<char>, dimensions: Seq<Seq<char>>, touch_count: usize },
    HotZoneCleared { path: Seq<char>, remaining_dimensions: Seq<Seq<char>> },
    FileModified { dimension: Seq<char>, path: Seq<char> },
    FileReverted { dimension: Seq<char>, path: Seq<char> },
}

impl View for RadarEvent {
    type V = RadarEventView;

    open spec fn view(&self) -> RadarEventView {
        match self {
            RadarEvent::HotZoneEntered { path, dimensions, touch_count } => RadarEventView::HotZoneEntered {
                path: path@,
                dimensions: strs_view(dimensions@),
                touch_count: *touch_count,
            },
            RadarEvent::HotZoneCleared { path, remaining_dimensions } => RadarEventView::HotZoneCleared {
                path: path@,
                remaining_dimensions: strs_view(remaining_dimensions@),
            },
            RadarEvent::FileModified { dimension, path } => RadarEventView::FileModified {
                dimension: dimension@,
                path: path@,
            },
            RadarEvent::FileReverted { dimension, path } => RadarEventView::FileReverted {
                dimension: dimension@,
                path: path@,
            },
        }
    }
}

pub open spec fn event_views(v: Seq<RadarEvent>) -> Seq<RadarEventView> {
    v.map_values(|e: RadarEvent| e@)
}

/// The dimensions a state holds for path `p` (its first entry for `p`).
pub open spec fn dims_at(state: Seq<(Seq<char>, Seq<Seq<char>>)>, p: Seq<char>) -> Option<Seq<Seq<char>>>
    decreases state.len(),
{
    if state.len() == 0 {
        None
    } else if state[0].0 == p {
        Some(state[0].1)
    } else {
        dims_at(state.drop_first(), p)
    }
}

/// Whether a state holds path `p` as a hot zone.
pub open spec fn hot_in(state: Seq<(Seq<char>, Seq<Seq<char>>)>, p: Seq<char>, threshold: usize) -> bool {
    match dims_at(state, p) {
        Some(d) => d.len() >= threshold,
        None => false,
    }
}

/// A hot zone entered for each hot zone of the new scan that was not one
/// before, in the order of the hot zones.
pub open spec fn entered_events(
    hot: Seq<PathActivityView>,
    prev: Seq<(Seq<char>, Seq<Seq<char>>)>,
    threshold: usize,
) -> Seq<RadarEventView>
    decreases hot.len(),
{
    if hot.len() == 0 {
        Seq::empty()
    } else {
        let a = hot.last();
        entered_events(hot.drop_last(), prev, threshold) + (if !hot_in(prev, a.path, threshold) {
            seq![RadarEventView::HotZoneEntered { path: a.path, dimensions: a.dimensions, touch_count: a.touch_count }]
        } else {
            Seq::empty()
        })
    }
}

/// A hot zone cleared for each hot zone of the earlier state that is not
/// one now, with the dimensions still changing it, in the order of the
/// earlier state.
pub open spec fn cleared_events(
    prev: Seq<(Seq<char>, Seq<Seq<char>>)>,
    cur: Seq<(Seq<char>, Seq<Seq<char>>)>,
    threshold: usize,
) -> Seq<RadarEventView>
    decreases prev.len(),
{
    if prev.len() == 0 {
        Seq::empty()
    } else {
        let (p, d) = prev.last();
        cleared_events(prev.drop_last(), cur, threshold) + (if d.len() >= threshold && !hot_in(cur, p, threshold) {
            seq![RadarEventView::HotZoneCleared {
                path: p,
                remaining_dimensions: match dims_at(cur, p) {
                    Some(x) => x,
                    None => Seq::empty(),
                },
            }]
        } else {
            Seq::empty()
        })
    }
}

/// Where state `state` holds path `p` first.
fn find_path(state: &Vec<WatchEntry>, p: &str) -> (r: Option<usize>)
    ensures
        match r {
            Some(k) => k < state@.len() && dims_at(state_view(state@), p@) == Some(strs_view(state@[k as int].dimensions@)),
            None => dims_at(state_view(state@), p@) is None,
        },
{
    let ghost sv = state_view(state@);
    let mut i: usize = 0;
    proof {
        assert(sv.skip(0) =~= sv);
    }
    while i < state.len()
        invariant
            i <= state.len(),
            sv == state_view(state@),
            dims_at(sv, p@) == dims_at(sv.skip(i as int), p@),
        decreases state.len() - i,
    {
        proof {
            assert(sv.skip(i as int)[0] == sv[i as int]);
            assert(sv.skip(i as int).drop_first() =~= sv.skip(i + 1));
        }
        if str_eq(state[i].path.as_str(), p) {
            return Some(i);
        }
        i = i + 1;
    }
    None
}

/// Whether state `state` holds path `p` as a hot zone.
fn is_hot_in(state: &Vec<WatchEntry>, p: &str, threshold: usize) -> (r: bool)
    ensures
        r == hot_in(state_view(state@), p@, threshold),
{
    match find_path(state, p) {
        Some(k) => state[k].dimensions.len() >= threshold,
        None => false,
    }
}

impl RadarSubsystem {
    /// One turn of a watch: the events between the state of the last scan
    /// and a new report (hot zones entered, then hot zones cleared), and the
    /// state the report leaves.
    pub fn watch_step(prev: &Vec<WatchEntry>, report: &RadarReport, threshold: usize) -> (r: (
        Vec<RadarEvent>,
        Vec<WatchEntry>,
    ))
        ensures
            state_view(r.1@) == report_state(activity_views(report.activities@)),
            event_views(r.0@) == entered_events(activity_views(report.hot_zones@), state_view(prev@), threshold)
                + cleared_events(state_view(prev@), state_view(r.1@), threshold),
    {
        let ghost acts = activity_views(report.activities@);
        let ghost pv = state_view(prev@);
        let mut cur: Vec<WatchEntry> = Vec::new();
        let mut i: usize = 0;
        while i < report.activities.len()
            invariant
                i <= report.activities.len(),
                acts == activity_views(report.activities@),
                state_view(cur@) == report_state(acts).take(i as int),
            decreases report.activities.len() - i,
        {
            let ghost before = cur@;
            let e = WatchEntry {
                path: report.activities[i].path.clone(),
                dimensions: clone_strings(&report.activities[i].dimensions),
            };
            cur.push(e);
            proof {
                assert(state_view(cur@) =~= state_view(before).push((e.path@, strs_view(e.dimensions@))));
                assert(report_state(acts).take(i + 1) =~= report_state(acts).take(i as int).push(report_state(acts)[i as int]));
            }
            i = i + 1;
        }
        proof {
            assert(report_state(acts).take(report.activities.len() as int) =~= report_state(acts));
        }
        let ghost hv = activity_views(report.hot_zones@);
        let ghost cv = state_view(cur@);
        let mut events: Vec<RadarEvent> = Vec::new();
        let mut j: usize = 0;
        proof {
            assert(hv.take(0) =~= Seq::<PathActivityView>::empty());
            assert(event_views(events@) =~= entered_events(hv.take(0), pv, threshold));
        }
        while j < report.hot_zones.len()
            invariant
                j <= report.hot_zones.len(),
                hv == activity_views(report.hot_zones@),
                pv == state_view(prev@),
                event_views(events@) == entered_events(hv.take(j as int), pv, threshold),
            decreases report.hot_zones.len() - j,
        {
            let a = &report.hot_zones[j];
            proof {
                assert(hv.take(j + 1).drop_last() =~= hv.take(j as int));
                assert(hv.take(j + 1).last() == a@);
            }
            if !is_hot_in(prev, a.path.as_str(), threshold) {
                let ghost before = events@;
                let ev = RadarEvent::HotZoneEntered {
                    path: a.path.clone(),
                    dimensions: clone_strings(&a.dimensions),
                    touch_count: a.touch_count,
                };
                events.push(ev);
                proof {
                    assert(event_views(events@) =~= event_views(before).push(ev@));
                }
            }
            j = j + 1;
        }
        proof {
            assert(hv.take(report.hot_zones.len() as int) =~= hv);
        }
        let ghost base = event_views(events@);
        let mut k: usize = 0;
        proof {
            assert(pv.take(0) =~= Seq::<(Seq<char>, Seq<Seq<char>>)>::empty());
            assert(base + cleared_events(pv.take(0), cv, threshold) =~= base);
        }
        while k < prev.len()
            invariant
                k <= prev.len(),
                pv == state_view(prev@),
                cv == state_view(cur@),
                event_views(events@) == base + cleared_events(pv.take(k as int), cv, threshold),
            decreases prev.len() - k,
        {
            let e = &prev[k];
            proof {
                assert(pv.take(k + 1).drop_last() =~= pv.take(k as int));
                assert(pv.take(k + 1).last() == pv[k as int]);
            }
            if e.dimensions.len() >= threshold && !is_hot_in(&cur, e.path.as_str(), threshold) {
                let remaining = match find_path(&cur, e.path.as_str()) {
                    Some(x) => clone_strings(&cur[x].dimensions),
                    None => Vec::new(),
                };
                proof {
                    if dims_at(cv, e.path@) is None {
                        assert(strs_view(remaining@) =~= Seq::<Seq<char>>::empty());
                    }
                }
                let ghost before = events@;
                let ev = RadarEvent::HotZoneCleared { path: e.path.clone(), remaining_dimensions: remaining };
                events.push(ev);
                proof {
                    assert(event_views(events@) =~= event_views(before).push(ev@));
                }
            }
            k = k + 1;
        }
        proof {
            assert(pv.take(prev.len() as int) =~= pv);
        }
        (events, cur)
    }
}

} // verus!
