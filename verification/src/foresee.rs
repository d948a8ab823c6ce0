//! Conflict foresight: how two dimensions changed a file relative to their
//! common base, which line edits of the two collide, and the conflict hunks
//! that a 3-way merge would stop at.
use vstd::prelude::*;
use std::ops::Range;
use crate::observe::{lemma_path_order_refl, path_order, path_sorted, paths_ordered, sort_paths, stable_arrangement};
use crate::text::{chars_eq, chars_of, lines_of, string_of, strs_view, take_chars, text_lines};

verus! {

/// The kind of a predicted merge conflict.
#[derive(Debug, Clone, Copy, PartialEq, Eq, Structural)]
pub enum ConflictType {
    TextOverlap,
    AddAddConflict,
    ModifyDeleteConflict,
    DeleteModifyConflict,
    BinaryCollision,
    ProximityWarning,
}

/// One predicted conflict in a file.
#[derive(Debug)]
pub struct ConflictHunk {
    pub path: String,
    pub conflict_type: ConflictType,
    pub base_range: Range<usize>,
    pub ours_range: Range<usize>,
    pub theirs_range: Range<usize>,
    pub ours_lines: Vec<String>,
    pub theirs_lines: Vec<String>,
}

pub struct ConflictHunkView {
    pub path: Seq<char>,
    pub conflict_type: ConflictType,
    pub base_range: (int, int),
    pub ours_range: (int, int),
    pub theirs_range: (int, int),
    pub ours_lines: Seq<Seq<char>>,
    pub theirs_lines: Seq<Seq<char>>,
}

pub open spec fn lines_view(v: Seq<String>) -> Seq<Seq<char>> {
    v.map_values(|l: String| l@)
}

impl View for ConflictHunk {
    type V = ConflictHunkView;

    open spec fn view(&self) -> ConflictHunkView {
        ConflictHunkView {
            path: self.path@,
            conflict_type: self.conflict_type,
            base_range: (self.base_range.start as int, self.base_range.end as int),
            ours_range: (self.ours_range.start as int, self.ours_range.end as int),
            theirs_range: (self.theirs_range.start as int, self.theirs_range.end as int),
            ours_lines: lines_view(self.ours_lines@),
            theirs_lines: lines_view(self.theirs_lines@),
        }
    }
}

/// How the two sides of a file stand against their common base.
#[derive(Debug, Clone, Copy, PartialEq, Eq, Structural)]
pub enum FileChange {
    /// Both sides hold the same content (or both lack the file).
    Identical,
    /// Only our side differs from the base.
    OursOnly,
    /// Only their side differs from the base.
    TheirsOnly,
    /// Both sides added the file, differently.
    BothAdded,
    /// We deleted the file, they changed it.
    DeletedByUs,
    /// We changed the file, they deleted it.
    DeletedByThem,
    /// Both sides changed the file, differently.
    BothModified,
}

/// The classification of one file, given its base content and the content on
/// each side (`None` where the file is absent).
pub open spec fn file_change(
    base: Option<Seq<u8>>,
    ours: Option<Seq<u8>>,
    theirs: Option<Seq<u8>>,
) -> FileChange {
    if ours == theirs {
        FileChange::Identical
    } else if theirs == base {
        FileChange::OursOnly
    } else if ours == base {
        FileChange::TheirsOnly
    } else {
        match (base, ours, theirs) {
            (None, Some(_), Some(_)) => FileChange::BothAdded,
            (Some(_), None, Some(_)) => FileChange::DeletedByUs,
            (Some(_), Some(_), None) => FileChange::DeletedByThem,
            (Some(_), Some(_), Some(_)) => FileChange::BothModified,
            _ => FileChange::Identical,
        }
    }
}

fn bytes_eq(a: &Vec<u8>, b: &Vec<u8>) -> (r: bool)
    ensures
        r == (a@ == b@),
{
    if a.len() != b.len() {
        return false;
    }
    let mut i: usize = 0;
    while i < a.len()
        invariant
            i <= a.len(),
            a.len() == b.len(),
            forall|j: int| 0 <= j < i ==> a@[j] == b@[j],
        decreases a.len() - i,
    {
        if a[i] != b[i] {
            return false;
        }
        i = i + 1;
    }
    proof {
        assert(a@ =~= b@);
    }
    true
}

pub open spec fn opt_bytes(o: Option<&Vec<u8>>) -> Option<Seq<u8>> {
    match o {
        Some(v) => Some(v@),
        None => None,
    }
}

fn opt_bytes_eq(a: Option<&Vec<u8>>, b: Option<&Vec<u8>>) -> (r: bool)
    ensures
        r == (opt_bytes(a) == opt_bytes(b)),
{
    match (a, b) {
        (Some(x), Some(y)) => bytes_eq(x, y),
        (None, None) => true,
        _ => false,
    }
}

/// Classifies a file by how the two sides stand against the base.
pub fn classify_file_change(
    base: Option<&Vec<u8>>,
    ours: Option<&Vec<u8>>,
    theirs: Option<&Vec<u8>>,
) -> (r: FileChange)
    ensures
        r == file_change(opt_bytes(base), opt_bytes(ours), opt_bytes(theirs)),
{
    if opt_bytes_eq(ours, theirs) {
        return FileChange::Identical;
    }
    if opt_bytes_eq(theirs, base) {
        return FileChange::OursOnly;
    }
    if opt_bytes_eq(ours, base) {
        return FileChange::TheirsOnly;
    }
    match (base, ours, theirs) {
        (None, Some(_), Some(_)) => FileChange::BothAdded,
        (Some(_), None, Some(_)) => FileChange::DeletedByUs,
        (Some(_), Some(_), None) => FileChange::DeletedByThem,
        (Some(_), Some(_), Some(_)) => FileChange::BothModified,
        _ => FileChange::Identical,
    }
}

/// The conflict of a file both sides added differently; `ours_text` and
/// `theirs_text` are the two contents read as text, `ours_len` and
/// `theirs_len` their sizes in bytes.
pub fn add_add_conflict(
    path: &str,
    ours_len: usize,
    ours_text: &str,
    theirs_len: usize,
    theirs_text: &str,
) -> (r: ConflictHunk)
    ensures
        r@ == (ConflictHunkView {
            path: path@,
            conflict_type: ConflictType::AddAddConflict,
            base_range: (0, 0),
            ours_range: (0, ours_len as int),
            theirs_range: (0, theirs_len as int),
            ours_lines: text_lines(ours_text@),
            theirs_lines: text_lines(theirs_text@),
        }),
{
    ConflictHunk {
        path: String::from_str(path),
        conflict_type: ConflictType::AddAddConflict,
        base_range: 0..0,
        ours_range: 0..ours_len,
        theirs_range: 0..theirs_len,
        ours_lines: lines_of(ours_text),
        theirs_lines: lines_of(theirs_text),
    }
}

/// The conflict of a file we deleted and they changed.
pub fn delete_modify_conflict(path: &str, theirs_len: usize, theirs_text: &str) -> (r: ConflictHunk)
    ensures
        r@ == (ConflictHunkView {
            path: path@,
            conflict_type: ConflictType::DeleteModifyConflict,
            base_range: (0, 0),
            ours_range: (0, 0),
            theirs_range: (0, theirs_len as int),
            ours_lines: Seq::empty(),
            theirs_lines: text_lines(theirs_text@),
        }),
{
    let r = ConflictHunk {
        path: String::from_str(path),
        conflict_type: ConflictType::DeleteModifyConflict,
        base_range: 0..0,
        ours_range: 0..0,
        theirs_range: 0..theirs_len,
        ours_lines: Vec::new(),
        theirs_lines: lines_of(theirs_text),
    };
    assert(lines_view(r.ours_lines@) =~= Seq::<Seq<char>>::empty());
    r
}

/// The conflict of a file we changed and they deleted.
pub fn modify_delete_conflict(path: &str, ours_len: usize, ours_text: &str) -> (r: ConflictHunk)
    ensures
        r@ == (ConflictHunkView {
            path: path@,
            conflict_type: ConflictType::ModifyDeleteConflict,
            base_range: (0, 0),
            ours_range: (0, ours_len as int),
            theirs_range: (0, 0),
            ours_lines: text_lines(ours_text@),
            theirs_lines: Seq::empty(),
        }),
{
    let r = ConflictHunk {
        path: String::from_str(path),
        conflict_type: ConflictType::ModifyDeleteConflict,
        base_range: 0..0,
        ours_range: 0..ours_len,
        theirs_range: 0..0,
        ours_lines: lines_of(ours_text),
        theirs_lines: Vec::new(),
    };
    assert(lines_view(r.theirs_lines@) =~= Seq::<Seq<char>>::empty());
    r
}

/// The conflict of a binary file both sides changed.
pub fn binary_collision(path: &str) -> (r: ConflictHunk)
    ensures
        r@ == (ConflictHunkView {
            path: path@,
            conflict_type: ConflictType::BinaryCollision,
            base_range: (0, 0),
            ours_range: (0, 0),
            theirs_range: (0, 0),
            ours_lines: seq!["<binary>"@],
            theirs_lines: seq!["<binary>"@],
        }),
{
    let mut ours: Vec<String> = Vec::new();
    ours.push(String::from_str("<binary>"));
    let mut theirs: Vec<String> = Vec::new();
    theirs.push(String::from_str("<binary>"));
    let r = ConflictHunk {
        path: String::from_str(path),
        conflict_type: ConflictType::BinaryCollision,
        base_range: 0..0,
        ours_range: 0..0,
        theirs_range: 0..0,
        ours_lines: ours,
        theirs_lines: theirs,
    };
    assert(lines_view(r.ours_lines@) =~= seq!["<binary>"@]);
    assert(lines_view(r.theirs_lines@) =~= seq!["<binary>"@]);
    r
}

} // verus!

verus! {

/// What one step of a line diff does.
#[derive(Debug, Clone, Copy, PartialEq, Eq, Structural)]
pub enum EditOpKind {
    Equal,
    Delete,
    Insert,
}

/// One step of a line diff from a base text to a new text: the line it keeps,
/// deletes or inserts, with its line numbers on each side where it has one.
#[derive(Debug, Clone)]
pub struct EditOp {
    pub kind: EditOpKind,
    pub old_line: Option<usize>,
    pub new_line: Option<usize>,
    pub text: String,
}

/// A changed region: base lines `base_start..=base_end` replaced by new lines
/// `new_start..=new_end` (a pure insertion has `base_start == base_end`, the
/// base line it follows), with the inserted lines.
#[derive(Debug, Clone)]
pub struct DiffHunk {
    pub base_start: usize,
    pub base_end: usize,
    pub new_start: usize,
    pub new_end: usize,
    pub inserted_lines: Vec<String>,
}

pub struct DiffHunkView {
    pub base_start: int,
    pub base_end: int,
    pub new_start: int,
    pub new_end: int,
    pub inserted_lines: Seq<Seq<char>>,
}

impl View for DiffHunk {
    type V = DiffHunkView;

    open spec fn view(&self) -> DiffHunkView {
        DiffHunkView {
            base_start: self.base_start as int,
            base_end: self.base_end as int,
            new_start: self.new_start as int,
            new_end: self.new_end as int,
            inserted_lines: lines_view(self.inserted_lines@),
        }
    }
}

/// A changed region still being collected: the base and new lines it follows,
/// the deleted and inserted line spans seen so far, and the inserted lines.
#[derive(Debug)]
pub struct ActiveHunk {
    pub anchor_base: usize,
    pub anchor_new: usize,
    pub deleted_base_start: Option<usize>,
    pub deleted_base_end: Option<usize>,
    pub inserted_new_start: Option<usize>,
    pub inserted_new_end: Option<usize>,
    pub inserted_lines: Vec<String>,
}

pub struct ActiveHunkView {
    pub anchor_base: int,
    pub anchor_new: int,
    pub deleted_base_start: Option<int>,
    pub deleted_base_end: Option<int>,
    pub inserted_new_start: Option<int>,
    pub inserted_new_end: Option<int>,
    pub inserted_lines: Seq<Seq<char>>,
}

pub open spec fn opt_int(o: Option<usize>) -> Option<int> {
    match o {
        Some(x) => Some(x as int),
        None => None,
    }
}

impl View for ActiveHunk {
    type V = ActiveHunkView;

    open spec fn view(&self) -> ActiveHunkView {
        ActiveHunkView {
            anchor_base: self.anchor_base as int,
            anchor_new: self.anchor_new as int,
            deleted_base_start: opt_int(self.deleted_base_start),
            deleted_base_end: opt_int(self.deleted_base_end),
            inserted_new_start: opt_int(self.inserted_new_start),
            inserted_new_end: opt_int(self.inserted_new_end),
            inserted_lines: lines_view(self.inserted_lines@),
        }
    }
}

/// The finished region of an active hunk: its deleted span, or the anchor
/// when nothing was deleted; its inserted span, or the anchor when nothing
/// was inserted.
pub open spec fn finish_hunk(h: ActiveHunkView) -> DiffHunkView {
    let (bs, be) = match (h.deleted_base_start, h.deleted_base_end) {
        (Some(s), Some(e)) => (s, e),
        _ => (h.anchor_base, h.anchor_base),
    };
    let (ns, ne) = match (h.inserted_new_start, h.inserted_new_end) {
        (Some(s), Some(e)) => (s, e),
        _ => (h.anchor_new, h.anchor_new),
    };
    DiffHunkView { base_start: bs, base_end: be, new_start: ns, new_end: ne, inserted_lines: h.inserted_lines }
}

impl ActiveHunk {
    /// Finishes the hunk.
    pub fn into_diff_hunk(self) -> (r: DiffHunk)
        ensures
            r@ == finish_hunk(self@),
    {
        let (base_start, base_end) = match (self.deleted_base_start, self.deleted_base_end) {
            (Some(s), Some(e)) => (s, e),
            _ => (self.anchor_base, self.anchor_base),
        };
        let (new_start, new_end) = match (self.inserted_new_start, self.inserted_new_end) {
            (Some(s), Some(e)) => (s, e),
            _ => (self.anchor_new, self.anchor_new),
        };
        DiffHunk { base_start, base_end, new_start, new_end, inserted_lines: self.inserted_lines }
    }
}

pub struct EditOpView {
    pub kind: EditOpKind,
    pub old_line: Option<int>,
    pub new_line: Option<int>,
    pub text: Seq<char>,
}

pub open spec fn op_views(ops: Seq<EditOp>) -> Seq<EditOpView> {
    ops.map_values(
        |o: EditOp|
            EditOpView {
                kind: o.kind,
                old_line: opt_int(o.old_line),
                new_line: opt_int(o.new_line),
                text: o.text@,
            },
    )
}

/// Where a scan of the diff steps stands: the finished hunks, the last base
/// and new line numbers seen, and the hunk being collected.
pub struct HunkScan {
    pub hunks: Seq<DiffHunkView>,
    pub last_base: int,
    pub last_new: int,
    pub current: Option<ActiveHunkView>,
}

pub open spec fn min_opt(o: Option<int>, x: int) -> int {
    match o {
        Some(s) => if s < x {
            s
        } else {
            x
        },
        None => x,
    }
}

pub open spec fn max_opt(o: Option<int>, x: int) -> int {
    match o {
        Some(s) => if s > x {
            s
        } else {
            x
        },
        None => x,
    }
}

/// The hunk being collected, or a new one anchored at the last lines seen.
pub open spec fn open_hunk(s: HunkScan) -> ActiveHunkView {
    match s.current {
        Some(h) => h,
        None => ActiveHunkView {
            anchor_base: s.last_base,
            anchor_new: s.last_new,
            deleted_base_start: None,
            deleted_base_end: None,
            inserted_new_start: None,
            inserted_new_end: None,
            inserted_lines: Seq::empty(),
        },
    }
}

/// A text with every trailing newline removed.
pub open spec fn without_trailing_newlines(t: Seq<char>) -> Seq<char>
    decreases t.len(),
{
    if t.len() > 0 && t.last() == '\n' {
        without_trailing_newlines(t.drop_last())
    } else {
        t
    }
}

/// One step of the scan: an unchanged line closes the current hunk; a
/// deleted or inserted line widens it (opening one if needed).
pub open spec fn scan_step(s: HunkScan, op: EditOpView) -> HunkScan {
    match op.kind {
        EditOpKind::Equal => HunkScan {
            hunks: match s.current {
                Some(h) => s.hunks.push(finish_hunk(h)),
                None => s.hunks,
            },
            last_base: match op.old_line {
                Some(l) => l,
                None => s.last_base,
            },
            last_new: match op.new_line {
                Some(l) => l,
                None => s.last_new,
            },
            current: None,
        },
        EditOpKind::Delete => {
            let h = open_hunk(s);
            let l = match op.old_line {
                Some(x) => x,
                None => s.last_base + 1,
            };
            HunkScan {
                last_base: l,
                current: Some(
                    ActiveHunkView {
                        deleted_base_start: Some(min_opt(h.deleted_base_start, l)),
                        deleted_base_end: Some(max_opt(h.deleted_base_end, l)),
                        ..h
                    },
                ),
                ..s
            }
        },
        EditOpKind::Insert => {
            let h = open_hunk(s);
            let l = match op.new_line {
                Some(x) => x,
                None => s.last_new + 1,
            };
            HunkScan {
                last_new: l,
                current: Some(
                    ActiveHunkView {
                        inserted_new_start: Some(min_opt(h.inserted_new_start, l)),
                        inserted_new_end: Some(max_opt(h.inserted_new_end, l)),
                        inserted_lines: h.inserted_lines.push(without_trailing_newlines(op.text)),
                        ..h
                    },
                ),
                ..s
            }
        },
    }
}

/// The scan after the given diff steps.
pub open spec fn scan_ops(ops: Seq<EditOpView>) -> HunkScan
    decreases ops.len(),
{
    if ops.len() == 0 {
        HunkScan { hunks: Seq::empty(), last_base: 0, last_new: 0, current: None }
    } else {
        scan_step(scan_ops(ops.drop_last()), ops.last())
    }
}

/// The changed regions of a diff, in order.
pub open spec fn diff_hunks(ops: Seq<EditOpView>) -> Seq<DiffHunkView> {
    let s = scan_ops(ops);
    match s.current {
        Some(h) => s.hunks.push(finish_hunk(h)),
        None => s.hunks,
    }
}

/// Line numbers small enough that counting one further per step never
/// overflows.
pub open spec fn ops_bounded(ops: Seq<EditOpView>) -> bool {
    &&& ops.len() < usize::MAX
    &&& forall|k: int|
        0 <= k < ops.len() ==> ((#[trigger] ops[k]).old_line matches Some(x) ==> x + ops.len()
            < usize::MAX) && (ops[k].new_line matches Some(y) ==> y + ops.len() < usize::MAX)
}

fn trim_newlines(t: &str) -> (r: String)
    ensures
        r@ == without_trailing_newlines(t@),
{
    let v = chars_of(t);
    let mut n: usize = v.len();
    proof {
        assert(v@.take(n as int) =~= v@);
    }
    while n > 0 && v[n - 1] == '\n'
        invariant
            n <= v.len(),
            v@ == t@,
            without_trailing_newlines(t@) == without_trailing_newlines(v@.take(n as int)),
        decreases n,
    {
        proof {
            assert(v@.take(n as int).drop_last() =~= v@.take(n - 1));
        }
        n = n - 1;
    }
    string_of(&take_chars(&v, n))
}

fn min_or(o: Option<usize>, x: usize) -> (r: usize)
    ensures
        r == min_opt(opt_int(o), x as int),
{
    match o {
        Some(s) => if s < x {
            s
        } else {
            x
        },
        None => x,
    }
}

fn max_or(o: Option<usize>, x: usize) -> (r: usize)
    ensures
        r == max_opt(opt_int(o), x as int),
{
    match o {
        Some(s) => if s > x {
            s
        } else {
            x
        },
        None => x,
    }
}

pub open spec fn active_view(o: Option<ActiveHunk>) -> Option<ActiveHunkView> {
    match o {
        Some(h) => Some(h@),
        None => None,
    }
}

pub open spec fn hunk_views(v: Seq<DiffHunk>) -> Seq<DiffHunkView> {
    v.map_values(|h: DiffHunk| h@)
}

/// Extracts the changed regions from the steps of a line diff against the
/// base text.
pub fn extract_diff_hunks(ops: &Vec<EditOp>) -> (r: Vec<DiffHunk>)
    requires
        ops_bounded(op_views(ops@)),
    ensures
        hunk_views(r@) == diff_hunks(op_views(ops@)),
{
    let ghost ov = op_views(ops@);
    let mut hunks: Vec<DiffHunk> = Vec::new();
    let mut last_base_line: usize = 0;
    let mut last_new_line: usize = 0;
    let mut current_hunk: Option<ActiveHunk> = None;
    let mut i: usize = 0;
    proof {
        assert(ov.take(0) =~= Seq::<EditOpView>::empty());
        assert(hunk_views(hunks@) =~= Seq::<DiffHunkView>::empty());
    }
    while i < ops.len()
        invariant
            i <= ops.len(),
            ov == op_views(ops@),
            ops_bounded(ov),
            last_base_line + (ops.len() - i) < usize::MAX,
            last_new_line + (ops.len() - i) < usize::MAX,
            scan_ops(ov.take(i as int)) == (HunkScan {
                hunks: hunk_views(hunks@),
                last_base: last_base_line as int,
                last_new: last_new_line as int,
                current: active_view(current_hunk),
            }),
        decreases ops.len() - i,
    {
        let op = &ops[i];
        proof {
            assert(ov.take(i + 1).drop_last() =~= ov.take(i as int));
            assert(ov.take(i + 1).last() == ov[i as int]);
            assert(ov[i as int].old_line == opt_int(op.old_line));
        }
        let ghost before = HunkScan {
            hunks: hunk_views(hunks@),
            last_base: last_base_line as int,
            last_new: last_new_line as int,
            current: active_view(current_hunk),
        };
        match op.kind {
            EditOpKind::Equal => {
                let taken = current_hunk.take();
                match taken {
                    Some(h) => {
                        let d = h.into_diff_hunk();
                        hunks.push(d);
                    },
                    None => {},
                }
                if let Some(old_l) = op.old_line {
                    last_base_line = old_l;
                }
                if let Some(new_l) = op.new_line {
                    last_new_line = new_l;
                }
                proof {
                    assert(hunk_views(hunks@) =~= scan_step(before, ov[i as int]).hunks);
                }
            },
            EditOpKind::Delete => {
                let mut h = match current_hunk.take() {
                    Some(h) => h,
                    None => {
                        let nh = ActiveHunk {
                            anchor_base: last_base_line,
                            anchor_new: last_new_line,
                            deleted_base_start: None,
                            deleted_base_end: None,
                            inserted_new_start: None,
                            inserted_new_end: None,
                            inserted_lines: Vec::new(),
                        };
                        proof {
                            assert(lines_view(nh.inserted_lines@) =~= Seq::<Seq<char>>::empty());
                        }
                        nh
                    },
                };
                assert(h@ == open_hunk(before));
                let next_line = last_base_line + 1;
                let old_l = match op.old_line {
                    Some(x) => x,
                    None => next_line,
                };
                last_base_line = old_l;
                h.deleted_base_start = Some(min_or(h.deleted_base_start, old_l));
                h.deleted_base_end = Some(max_or(h.deleted_base_end, old_l));
                current_hunk = Some(h);
            },
            EditOpKind::Insert => {
                let mut h = match current_hunk.take() {
                    Some(h) => h,
                    None => {
                        let nh = ActiveHunk {
                            anchor_base: last_base_line,
                            anchor_new: last_new_line,
                            deleted_base_start: None,
                            deleted_base_end: None,
                            inserted_new_start: None,
                            inserted_new_end: None,
                            inserted_lines: Vec::new(),
                        };
                        proof {
                            assert(lines_view(nh.inserted_lines@) =~= Seq::<Seq<char>>::empty());
                        }
                        nh
                    },
                };
                assert(h@ == open_hunk(before));
                let next_line = last_new_line + 1;
                let new_l = match op.new_line {
                    Some(x) => x,
                    None => next_line,
                };
                last_new_line = new_l;
                let line_str = trim_newlines(op.text.as_str());
                h.inserted_new_start = Some(min_or(h.inserted_new_start, new_l));
                h.inserted_new_end = Some(max_or(h.inserted_new_end, new_l));
                let ghost lines_before = lines_view(h.inserted_lines@);
                h.inserted_lines.push(line_str);
                proof {
                    assert(lines_view(h.inserted_lines@) =~= lines_before.push(
                        without_trailing_newlines(op.text@),
                    ));
                }
                current_hunk = Some(h);
            },
        }
        proof {
            assert(scan_ops(ov.take(i + 1)) == scan_step(before, ov[i as int]));
        }
        i = i + 1;
    }
    proof {
        assert(ov.take(ops.len() as int) =~= ov);
    }
    if let Some(h) = current_hunk {
        let ghost before = hunk_views(hunks@);
        hunks.push(h.into_diff_hunk());
        proof {
            assert(hunk_views(hunks@) =~= before.push(finish_hunk(h@)));
        }
    }
    hunks
}

} // verus!

verus! {

pub open spec fn imax(a: int, b: int) -> int {
    if a >= b {
        a
    } else {
        b
    }
}

pub open spec fn imin(a: int, b: int) -> int {
    if a <= b {
        a
    } else {
        b
    }
}

/// Whether two changed regions touch the same base lines: two insertions
/// must follow the same base line; otherwise their spans must intersect.
pub open spec fn regions_overlap(h1: DiffHunkView, h2: DiffHunkView) -> bool {
    if h1.base_start == h1.base_end && h2.base_start == h2.base_end {
        h1.base_start == h2.base_start
    } else {
        imax(h1.base_start, h2.base_start) <= imin(h1.base_end, h2.base_end)
    }
}

/// Whether two changed regions conflict: they overlap and put different
/// lines there.
pub open spec fn regions_conflict(h1: DiffHunkView, h2: DiffHunkView) -> bool {
    regions_overlap(h1, h2) && h1.inserted_lines != h2.inserted_lines
}

/// The conflict hunk of two conflicting regions of the file at `path`.
pub open spec fn overlap_conflict(path: Seq<char>, h1: DiffHunkView, h2: DiffHunkView) -> ConflictHunkView {
    let os = imax(h1.base_start, h2.base_start);
    let oe = imin(h1.base_end, h2.base_end);
    ConflictHunkView {
        path: path,
        conflict_type: ConflictType::TextOverlap,
        base_range: (os, imax(oe, os) + 1),
        ours_range: (h1.new_start, h1.new_end + 1),
        theirs_range: (h2.new_start, h2.new_end + 1),
        ours_lines: h1.inserted_lines,
        theirs_lines: h2.inserted_lines,
    }
}

/// The conflicts of our region `h1` with the first `n` of their regions.
pub open spec fn overlap_row(path: Seq<char>, h1: DiffHunkView, hs2: Seq<DiffHunkView>, n: int) -> Seq<
    ConflictHunkView,
>
    decreases n,
{
    if n <= 0 || n > hs2.len() {
        Seq::empty()
    } else if regions_conflict(h1, hs2[n - 1]) {
        overlap_row(path, h1, hs2, n - 1).push(overlap_conflict(path, h1, hs2[n - 1]))
    } else {
        overlap_row(path, h1, hs2, n - 1)
    }
}

/// The conflicts of our first `m` regions with all of theirs, ours outermost.
pub open spec fn overlap_rows(
    path: Seq<char>,
    hs1: Seq<DiffHunkView>,
    hs2: Seq<DiffHunkView>,
    m: int,
) -> Seq<ConflictHunkView>
    decreases m,
{
    if m <= 0 || m > hs1.len() {
        Seq::empty()
    } else {
        overlap_rows(path, hs1, hs2, m - 1) + overlap_row(path, hs1[m - 1], hs2, hs2.len() as int)
    }
}

/// Whether two changed regions have a base line in common: each starts no
/// later than either ends (their closed base spans `[start, end]`
/// intersect).
pub open spec fn share_base_line(h1: DiffHunkView, h2: DiffHunkView) -> bool {
    &&& h1.base_start <= h1.base_end
    &&& h1.base_start <= h2.base_end
    &&& h2.base_start <= h1.base_end
    &&& h2.base_start <= h2.base_end
}

/// Whether a region only inserts lines (its base span is empty).
pub open spec fn pure_insertion(h: DiffHunkView) -> bool {
    h.base_start == h.base_end
}

/// Whether `c` is the text conflict of our region `h1` with their region
/// `h2` in the file at `path`: from the later start to the earlier end of
/// the two base spans, with each side's lines.
pub open spec fn is_text_conflict_of(c: ConflictHunkView, path: Seq<char>, h1: DiffHunkView, h2: DiffHunkView) -> bool {
    &&& c.path == path
    &&& c.conflict_type == ConflictType::TextOverlap
    &&& c.base_range.0 == (if h1.base_start >= h2.base_start { h1.base_start } else { h2.base_start })
    &&& c.ours_lines == h1.inserted_lines
    &&& c.theirs_lines == h2.inserted_lines
}

/// Whether `c` is the text conflict of some pair of our region and theirs
/// that touch a common base line and put different lines there.
pub open spec fn conflict_of_some_pair(c: ConflictHunkView, path: Seq<char>, hs1: Seq<DiffHunkView>, hs2: Seq<DiffHunkView>) -> bool {
    exists|a: int, b: int|
        0 <= a < hs1.len() && 0 <= b < hs2.len() && hs1[a].inserted_lines != hs2[b].inserted_lines && (if pure_insertion(
            #[trigger] hs1[a],
        ) && pure_insertion(#[trigger] hs2[b]) {
            hs1[a].base_start == hs2[b].base_start
        } else {
            share_base_line(hs1[a], hs2[b])
        }) && is_text_conflict_of(c, path, hs1[a], hs2[b])
}

proof fn lemma_row_has(path: Seq<char>, h1: DiffHunkView, hs2: Seq<DiffHunkView>, n: int, b: int)
    requires
        0 <= b < n <= hs2.len(),
        regions_conflict(h1, hs2[b]),
    ensures
        overlap_row(path, h1, hs2, n).contains(overlap_conflict(path, h1, hs2[b])),
    decreases n,
{
    let row = overlap_row(path, h1, hs2, n);
    if b == n - 1 {
        assert(row[row.len() - 1] == overlap_conflict(path, h1, hs2[b]));
    } else {
        lemma_row_has(path, h1, hs2, n - 1, b);
        let prev = overlap_row(path, h1, hs2, n - 1);
        let k = choose|k: int| 0 <= k < prev.len() && prev[k] == overlap_conflict(path, h1, hs2[b]);
        assert(row[k] == prev[k]);
    }
}

proof fn lemma_rows_have(path: Seq<char>, hs1: Seq<DiffHunkView>, hs2: Seq<DiffHunkView>, m: int, a: int, b: int)
    requires
        0 <= a < m <= hs1.len(),
        0 <= b < hs2.len(),
        regions_conflict(hs1[a], hs2[b]),
    ensures
        overlap_rows(path, hs1, hs2, m).contains(overlap_conflict(path, hs1[a], hs2[b])),
    decreases m,
{
    let rows = overlap_rows(path, hs1, hs2, m);
    let prev = overlap_rows(path, hs1, hs2, m - 1);
    let row = overlap_row(path, hs1[m - 1], hs2, hs2.len() as int);
    assert(rows == prev + row);
    if a == m - 1 {
        lemma_row_has(path, hs1[a], hs2, hs2.len() as int, b);
        let k = choose|k: int| 0 <= k < row.len() && row[k] == overlap_conflict(path, hs1[a], hs2[b]);
        assert(rows[prev.len() + k] == row[k]);
    } else {
        lemma_rows_have(path, hs1, hs2, m - 1, a, b);
        let k = choose|k: int| 0 <= k < prev.len() && prev[k] == overlap_conflict(path, hs1[a], hs2[b]);
        assert(rows[k] == prev[k]);
    }
}

proof fn lemma_row_from(path: Seq<char>, h1: DiffHunkView, hs2: Seq<DiffHunkView>, n: int, k: int)
    requires
        0 <= k < overlap_row(path, h1, hs2, n).len(),
    ensures
        exists|b: int|
            0 <= b < hs2.len() && regions_conflict(h1, hs2[b]) && overlap_row(path, h1, hs2, n)[k]
                == overlap_conflict(path, h1, #[trigger] hs2[b]),
    decreases n,
{
    let prev = overlap_row(path, h1, hs2, n - 1);
    if k < prev.len() {
        lemma_row_from(path, h1, hs2, n - 1, k);
        let b = choose|b: int|
            0 <= b < hs2.len() && regions_conflict(h1, hs2[b]) && prev[k] == overlap_conflict(path, h1, #[trigger] hs2[b]);
        assert(overlap_row(path, h1, hs2, n)[k] == prev[k]);
    } else {
        assert(overlap_row(path, h1, hs2, n)[k] == overlap_conflict(path, h1, hs2[n - 1]));
    }
}

proof fn lemma_rows_from(path: Seq<char>, hs1: Seq<DiffHunkView>, hs2: Seq<DiffHunkView>, m: int, k: int)
    requires
        0 <= k < overlap_rows(path, hs1, hs2, m).len(),
    ensures
        exists|a: int, b: int|
            0 <= a < hs1.len() && 0 <= b < hs2.len() && regions_conflict(hs1[a], hs2[b]) && overlap_rows(
                path,
                hs1,
                hs2,
                m,
            )[k] == overlap_conflict(path, #[trigger] hs1[a], #[trigger] hs2[b]),
    decreases m,
{
    let prev = overlap_rows(path, hs1, hs2, m - 1);
    let row = overlap_row(path, hs1[m - 1], hs2, hs2.len() as int);
    assert(overlap_rows(path, hs1, hs2, m) == prev + row);
    if k < prev.len() {
        lemma_rows_from(path, hs1, hs2, m - 1, k);
        let (a, b) = choose|a: int, b: int|
            0 <= a < hs1.len() && 0 <= b < hs2.len() && regions_conflict(hs1[a], hs2[b]) && prev[k]
                == overlap_conflict(path, #[trigger] hs1[a], #[trigger] hs2[b]);
        assert(overlap_rows(path, hs1, hs2, m)[k] == prev[k]);
    } else {
        lemma_row_from(path, hs1[m - 1], hs2, hs2.len() as int, k - prev.len());
        assert(overlap_rows(path, hs1, hs2, m)[k] == row[k - prev.len()]);
    }
}

/// The conflicts found between our regions and theirs are exactly the
/// pairs that touch a common base line with different new lines: two
/// regions that are not both pure insertions conflict when their closed
/// base spans intersect, two pure insertions when they follow the same
/// base line.
pub proof fn lemma_conflicts_are_shared_lines(path: Seq<char>, hs1: Seq<DiffHunkView>, hs2: Seq<DiffHunkView>)
    ensures
        forall|a: int, b: int|
            0 <= a < hs1.len() && 0 <= b < hs2.len() && !(pure_insertion(hs1[a]) && pure_insertion(hs2[b]))
                && share_base_line(#[trigger] hs1[a], #[trigger] hs2[b]) && hs1[a].inserted_lines
                != hs2[b].inserted_lines ==> exists|k: int|
                0 <= k < overlap_rows(path, hs1, hs2, hs1.len() as int).len() && is_text_conflict_of(
                    #[trigger] overlap_rows(path, hs1, hs2, hs1.len() as int)[k],
                    path,
                    hs1[a],
                    hs2[b],
                ),
        forall|a: int, b: int|
            0 <= a < hs1.len() && 0 <= b < hs2.len() && pure_insertion(#[trigger] hs1[a]) && pure_insertion(
                #[trigger] hs2[b],
            ) && hs1[a].base_start == hs2[b].base_start && hs1[a].inserted_lines != hs2[b].inserted_lines
                ==> exists|k: int|
                0 <= k < overlap_rows(path, hs1, hs2, hs1.len() as int).len() && is_text_conflict_of(
                    #[trigger] overlap_rows(path, hs1, hs2, hs1.len() as int)[k],
                    path,
                    hs1[a],
                    hs2[b],
                ),
        forall|k: int|
            0 <= k < overlap_rows(path, hs1, hs2, hs1.len() as int).len() ==> conflict_of_some_pair(
                #[trigger] overlap_rows(path, hs1, hs2, hs1.len() as int)[k],
                path,
                hs1,
                hs2,
            ),
{
    let rows = overlap_rows(path, hs1, hs2, hs1.len() as int);
    assert forall|a: int, b: int|
        0 <= a < hs1.len() && 0 <= b < hs2.len() && !(pure_insertion(hs1[a]) && pure_insertion(hs2[b]))
            && share_base_line(#[trigger] hs1[a], #[trigger] hs2[b]) && hs1[a].inserted_lines
            != hs2[b].inserted_lines implies exists|k: int|
            0 <= k < rows.len() && is_text_conflict_of(#[trigger] rows[k], path, hs1[a], hs2[b]) by {
        assert(regions_conflict(hs1[a], hs2[b]));
        lemma_rows_have(path, hs1, hs2, hs1.len() as int, a, b);
        let k = choose|k: int| 0 <= k < rows.len() && rows[k] == overlap_conflict(path, hs1[a], hs2[b]);
        assert(is_text_conflict_of(rows[k], path, hs1[a], hs2[b]));
    }
    assert forall|a: int, b: int|
        0 <= a < hs1.len() && 0 <= b < hs2.len() && pure_insertion(#[trigger] hs1[a]) && pure_insertion(
            #[trigger] hs2[b],
        ) && hs1[a].base_start == hs2[b].base_start && hs1[a].inserted_lines != hs2[b].inserted_lines
            implies exists|k: int| 0 <= k < rows.len() && is_text_conflict_of(#[trigger] rows[k], path, hs1[a], hs2[b]) by {
        assert(regions_conflict(hs1[a], hs2[b]));
        lemma_rows_have(path, hs1, hs2, hs1.len() as int, a, b);
        let k = choose|k: int| 0 <= k < rows.len() && rows[k] == overlap_conflict(path, hs1[a], hs2[b]);
        assert(is_text_conflict_of(rows[k], path, hs1[a], hs2[b]));
    }
    assert forall|k: int| 0 <= k < rows.len() implies conflict_of_some_pair(#[trigger] rows[k], path, hs1, hs2) by {
        lemma_rows_from(path, hs1, hs2, hs1.len() as int, k);
        let (a, b) = choose|a: int, b: int|
            0 <= a < hs1.len() && 0 <= b < hs2.len() && regions_conflict(hs1[a], hs2[b]) && rows[k]
                == overlap_conflict(path, #[trigger] hs1[a], #[trigger] hs2[b]);
        assert(is_text_conflict_of(rows[k], path, hs1[a], hs2[b]));
        assert(hs1[a].inserted_lines != hs2[b].inserted_lines);
        if !(pure_insertion(hs1[a]) && pure_insertion(hs2[b])) {
            assert(share_base_line(hs1[a], hs2[b]));
        }
    }
}

/// Line numbers of regions small enough to count one past them.
pub open spec fn hunks_bounded(hs: Seq<DiffHunkView>) -> bool {
    forall|k: int|
        0 <= k < hs.len() ==> (#[trigger] hs[k]).base_end < usize::MAX && hs[k].new_end
            < usize::MAX && hs[k].base_start < usize::MAX
}

fn lines_eq(a: &Vec<String>, b: &Vec<String>) -> (r: bool)
    ensures
        r == (lines_view(a@) == lines_view(b@)),
{
    if a.len() != b.len() {
        assert(lines_view(a@).len() != lines_view(b@).len());
        return false;
    }
    let mut i: usize = 0;
    while i < a.len()
        invariant
            i <= a.len(),
            a.len() == b.len(),
            forall|j: int| 0 <= j < i ==> a@[j]@ == b@[j]@,
        decreases a.len() - i,
    {
        if !crate::text::str_eq(a[i].as_str(), b[i].as_str()) {
            assert(lines_view(a@)[i as int] != lines_view(b@)[i as int]);
            return false;
        }
        i = i + 1;
    }
    assert(lines_view(a@) =~= lines_view(b@));
    true
}

/// The conflicts found, as the search gives them, are those of the pairs of
/// regions that touch a common base line with different lines.
proof fn lemma_found_conflicts(path: Seq<char>, hunks1: Seq<DiffHunk>, hunks2: Seq<DiffHunk>, conflicts: Seq<ConflictHunk>)
    requires
        conflicts.map_values(|c: ConflictHunk| c@) == overlap_rows(
            path,
            hunk_views(hunks1),
            hunk_views(hunks2),
            hunks1.len() as int,
        ),
    ensures
        forall|a: int, b: int|
            0 <= a < hunks1.len() && 0 <= b < hunks2.len() && !(pure_insertion(hunks1[a]@) && pure_insertion(
                hunks2[b]@,
            )) && share_base_line(#[trigger] hunks1[a]@, #[trigger] hunks2[b]@) && hunks1[a]@.inserted_lines
                != hunks2[b]@.inserted_lines ==> exists|k: int|
                0 <= k < conflicts.len() && is_text_conflict_of((#[trigger] conflicts[k])@, path, hunks1[a]@, hunks2[b]@),
        forall|k: int|
            0 <= k < conflicts.len() ==> conflict_of_some_pair(
                (#[trigger] conflicts[k])@,
                path,
                hunk_views(hunks1),
                hunk_views(hunks2),
            ),
{
    let v1 = hunk_views(hunks1);
    let v2 = hunk_views(hunks2);

    let rows = overlap_rows(path, v1, v2, hunks1.len() as int);
    let rv = conflicts.map_values(|c: ConflictHunk| c@);
    lemma_conflicts_are_shared_lines(path, v1, v2);
    assert forall|a: int, b: int|
        0 <= a < hunks1.len() && 0 <= b < hunks2.len() && !(pure_insertion(hunks1[a]@) && pure_insertion(
            hunks2[b]@,
        )) && share_base_line(#[trigger] hunks1[a]@, #[trigger] hunks2[b]@) && hunks1[a]@.inserted_lines
            != hunks2[b]@.inserted_lines implies exists|k: int|
            0 <= k < conflicts.len() && is_text_conflict_of((#[trigger] conflicts[k])@, path, hunks1[a]@, hunks2[b]@) by {
        assert(v1[a] == hunks1[a]@ && v2[b] == hunks2[b]@);
        let k = choose|k: int| 0 <= k < rows.len() && is_text_conflict_of(#[trigger] rows[k], path, v1[a], v2[b]);
        assert(rv[k] == conflicts[k]@);
    }
    assert forall|k: int| 0 <= k < conflicts.len() implies conflict_of_some_pair(
        (#[trigger] conflicts[k])@,
        path,
        v1,
        v2,
    ) by {
        assert(rv[k] == conflicts[k]@);
        assert(rows[k] == rv[k]);
    }
}

/// The conflicts between our changed regions and theirs in the file at
/// `path`: every pair that touches the same base lines with different new
/// lines, ours outermost.
pub fn detect_overlapping_hunks(path: &str, hunks1: &Vec<DiffHunk>, hunks2: &Vec<DiffHunk>) -> (r: Vec<
    ConflictHunk,
>)
    requires
        hunks_bounded(hunk_views(hunks1@)),
        hunks_bounded(hunk_views(hunks2@)),
    ensures
        r@.map_values(|c: ConflictHunk| c@) == overlap_rows(
            path@,
            hunk_views(hunks1@),
            hunk_views(hunks2@),
            hunks1@.len() as int,
        ),
        forall|a: int, b: int|
            0 <= a < hunks1@.len() && 0 <= b < hunks2@.len() && !(pure_insertion(hunks1@[a]@) && pure_insertion(
                hunks2@[b]@,
            )) && share_base_line(#[trigger] hunks1@[a]@, #[trigger] hunks2@[b]@) && hunks1@[a]@.inserted_lines
                != hunks2@[b]@.inserted_lines ==> exists|k: int|
                0 <= k < r@.len() && is_text_conflict_of((#[trigger] r@[k])@, path@, hunks1@[a]@, hunks2@[b]@),
        forall|k: int|
            0 <= k < r@.len() ==> conflict_of_some_pair(
                (#[trigger] r@[k])@,
                path@,
                hunk_views(hunks1@),
                hunk_views(hunks2@),
            ),
{
    let ghost v1 = hunk_views(hunks1@);
    let ghost v2 = hunk_views(hunks2@);
    let mut conflicts: Vec<ConflictHunk> = Vec::new();
    let mut a: usize = 0;
    proof {
        assert(conflicts@.map_values(|c: ConflictHunk| c@) =~= Seq::<ConflictHunkView>::empty());
    }
    while a < hunks1.len()
        invariant
            a <= hunks1.len(),
            v1 == hunk_views(hunks1@),
            v2 == hunk_views(hunks2@),
            hunks_bounded(v1),
            hunks_bounded(v2),
            conflicts@.map_values(|c: ConflictHunk| c@) == overlap_rows(path@, v1, v2, a as int),
        decreases hunks1.len() - a,
    {
        let h1 = &hunks1[a];
        assert(v1[a as int] == h1@);
        let ghost base = conflicts@.map_values(|c: ConflictHunk| c@);
        let mut b: usize = 0;
        proof {
            assert(base =~= base + overlap_row(path@, h1@, v2, 0));
        }
        while b < hunks2.len()
            invariant
                a < hunks1.len(),
                b <= hunks2.len(),
                v2 == hunk_views(hunks2@),
                hunks_bounded(v2),
                h1@ == v1[a as int],
                h1.base_end < usize::MAX && h1.new_end < usize::MAX,
                conflicts@.map_values(|c: ConflictHunk| c@) == base + overlap_row(
                    path@,
                    h1@,
                    v2,
                    b as int,
                ),
            decreases hunks2.len() - b,
        {
            let h2 = &hunks2[b];
            assert(v2[b as int] == h2@);
            let overlap_start = if h1.base_start >= h2.base_start {
                h1.base_start
            } else {
                h2.base_start
            };
            let overlap_end = if h1.base_end <= h2.base_end {
                h1.base_end
            } else {
                h2.base_end
            };
            let is_overlapping = if h1.base_start == h1.base_end && h2.base_start == h2.base_end {
                h1.base_start == h2.base_start
            } else {
                overlap_start <= overlap_end
            };
            if is_overlapping {
                if !lines_eq(&h1.inserted_lines, &h2.inserted_lines) {
                    let top = if overlap_end >= overlap_start {
                        overlap_end
                    } else {
                        overlap_start
                    };
                    let c = ConflictHunk {
                        path: String::from_str(path),
                        conflict_type: ConflictType::TextOverlap,
                        base_range: overlap_start..top + 1,
                        ours_range: h1.new_start..h1.new_end + 1,
                        theirs_range: h2.new_start..h2.new_end + 1,
                        ours_lines: crate::text::clone_strings(&h1.inserted_lines),
                        theirs_lines: crate::text::clone_strings(&h2.inserted_lines),
                    };
                    let ghost before = conflicts@.map_values(|c: ConflictHunk| c@);
                    conflicts.push(c);
                    proof {
                        assert(conflicts@.map_values(|c: ConflictHunk| c@) =~= before.push(
                            overlap_conflict(path@, h1@, h2@),
                        ));
                    }
                }
            }
            b = b + 1;
        }
        a = a + 1;
    }
    proof {
        lemma_found_conflicts(path@, hunks1@, hunks2@, conflicts@);
    }
    conflicts
}

/// The conflicts between two regions do not depend on whose side each is on:
/// two regions conflict exactly when they conflict the other way round.
pub proof fn lemma_region_conflict_symmetric(h1: DiffHunkView, h2: DiffHunkView)
    ensures
        regions_conflict(h1, h2) == regions_conflict(h2, h1),
{
}

/// Two sides that made the same change to a region never conflict over it.
pub proof fn lemma_same_change_no_conflict(h: DiffHunkView)
    ensures
        !regions_conflict(h, h),
{
}

// ---------------------------------------------------------------------------
// A whole prediction
// ---------------------------------------------------------------------------

/// One path of a three-way prediction: its bytes in the common base and on
/// each side (`None` where absent), the two sides read as text, whether any
/// of the three is binary, and the line diffs of each side against the base
/// (used only where both sides changed a text file).
pub struct FileSides {
    pub path: String,
    pub base: Option<Vec<u8>>,
    pub ours: Option<Vec<u8>>,
    pub theirs: Option<Vec<u8>>,
    pub ours_text: String,
    pub theirs_text: String,
    pub binary: bool,
    pub ours_ops: Vec<EditOp>,
    pub theirs_ops: Vec<EditOp>,
}

pub open spec fn own_bytes(o: Option<Vec<u8>>) -> Option<Seq<u8>> {
    match o {
        Some(v) => Some(v@),
        None => None,
    }
}

pub open spec fn byte_len(o: Option<Seq<u8>>) -> int {
    match o {
        Some(b) => b.len() as int,
        None => 0,
    }
}

/// The conflicts of one path, or none when a line number of its hunks
/// reaches the largest `usize`.
pub open spec fn file_outcome(s: FileSides) -> Option<Seq<ConflictHunkView>> {
    let b = own_bytes(s.base);
    let o = own_bytes(s.ours);
    let t = own_bytes(s.theirs);
    match file_change(b, o, t) {
        FileChange::BothAdded => Some(
            seq![ConflictHunkView {
                path: s.path@,
                conflict_type: ConflictType::AddAddConflict,
                base_range: (0, 0),
                ours_range: (0, byte_len(o)),
                theirs_range: (0, byte_len(t)),
                ours_lines: text_lines(s.ours_text@),
                theirs_lines: text_lines(s.theirs_text@),
            }],
        ),
        FileChange::DeletedByUs => Some(
            seq![ConflictHunkView {
                path: s.path@,
                conflict_type: ConflictType::DeleteModifyConflict,
                base_range: (0, 0),
                ours_range: (0, 0),
                theirs_range: (0, byte_len(t)),
                ours_lines: Seq::empty(),
                theirs_lines: text_lines(s.theirs_text@),
            }],
        ),
        FileChange::DeletedByThem => Some(
            seq![ConflictHunkView {
                path: s.path@,
                conflict_type: ConflictType::ModifyDeleteConflict,
                base_range: (0, 0),
                ours_range: (0, byte_len(o)),
                theirs_range: (0, 0),
                ours_lines: text_lines(s.ours_text@),
                theirs_lines: Seq::empty(),
            }],
        ),
        FileChange::BothModified => if s.binary {
            Some(
                seq![ConflictHunkView {
                    path: s.path@,
                    conflict_type: ConflictType::BinaryCollision,
                    base_range: (0, 0),
                    ours_range: (0, 0),
                    theirs_range: (0, 0),
                    ours_lines: seq!["<binary>"@],
                    theirs_lines: seq!["<binary>"@],
                }],
            )
        } else {
            let h1 = diff_hunks(op_views(s.ours_ops@));
            let h2 = diff_hunks(op_views(s.theirs_ops@));
            if hunks_bounded(h1) && hunks_bounded(h2) {
                Some(overlap_rows(s.path@, h1, h2, h1.len() as int))
            } else {
                None
            }
        },
        _ => Some(Seq::empty()),
    }
}

/// What the paths add up to, in order: the number of clean ones, the
/// conflicting ones, and their conflicts; none when a path has none.
pub open spec fn tally(files: Seq<FileSides>) -> Option<(nat, Seq<Seq<char>>, Seq<ConflictHunkView>)>
    decreases files.len(),
{
    if files.len() == 0 {
        Some((0, Seq::empty(), Seq::empty()))
    } else {
        match (tally(files.drop_last()), file_outcome(files.last())) {
            (Some((c, fs, hs)), Some(h)) => if h.len() == 0 {
                Some((c + 1, fs, hs))
            } else {
                Some((c, fs.push(files.last().path@), hs + h))
            },
            _ => None,
        }
    }
}

pub open spec fn all_ops_bounded(files: Seq<FileSides>) -> bool {
    forall|k: int|
        0 <= k < files.len() ==> ops_bounded(op_views((#[trigger] files[k]).ours_ops@)) && ops_bounded(
            op_views(files[k].theirs_ops@),
        )
}

fn hunks_fit(h: &Vec<DiffHunk>) -> (r: bool)
    ensures
        r == hunks_bounded(hunk_views(h@)),
{
    let mut i: usize = 0;
    while i < h.len()
        invariant
            i <= h.len(),
            forall|k: int|
                0 <= k < i ==> (#[trigger] hunk_views(h@)[k]).base_end < usize::MAX && hunk_views(h@)[k].new_end
                    < usize::MAX && hunk_views(h@)[k].base_start < usize::MAX,
        decreases h.len() - i,
    {
        if h[i].base_end == usize::MAX || h[i].new_end == usize::MAX || h[i].base_start == usize::MAX {
            assert(hunk_views(h@)[i as int] == h@[i as int]@);
            return false;
        }
        assert(hunk_views(h@)[i as int] == h@[i as int]@);
        i = i + 1;
    }
    true
}

/// The conflicts of one path, or none when its hunks reach the largest
/// `usize`.
pub fn predict_file(s: &FileSides) -> (r: Option<Vec<ConflictHunk>>)
    requires
        ops_bounded(op_views(s.ours_ops@)),
        ops_bounded(op_views(s.theirs_ops@)),
    ensures
        match (r, file_outcome(*s)) {
            (Some(v), Some(w)) => v@.map_values(|c: ConflictHunk| c@) == w,
            (None, None) => true,
            _ => false,
        },
{
    let b = match &s.base {
        Some(x) => Some(x),
        None => None,
    };
    let o = match &s.ours {
        Some(x) => Some(x),
        None => None,
    };
    let t = match &s.theirs {
        Some(x) => Some(x),
        None => None,
    };
    let change = classify_file_change(b, o, t);
    proof {
        assert(opt_bytes(b) == own_bytes(s.base));
        assert(opt_bytes(o) == own_bytes(s.ours));
        assert(opt_bytes(t) == own_bytes(s.theirs));
    }
    let ours_len: usize = match &s.ours {
        Some(b) => b.len(),
        None => 0,
    };
    let theirs_len: usize = match &s.theirs {
        Some(b) => b.len(),
        None => 0,
    };
    let mut out: Vec<ConflictHunk> = Vec::new();
    match change {
        FileChange::BothAdded => {
            out.push(add_add_conflict(s.path.as_str(), ours_len, s.ours_text.as_str(), theirs_len, s.theirs_text.as_str()));
        },
        FileChange::DeletedByUs => {
            out.push(delete_modify_conflict(s.path.as_str(), theirs_len, s.theirs_text.as_str()));
        },
        FileChange::DeletedByThem => {
            out.push(modify_delete_conflict(s.path.as_str(), ours_len, s.ours_text.as_str()));
        },
        FileChange::BothModified => {
            if s.binary {
                out.push(binary_collision(s.path.as_str()));
            } else {
                let h1 = extract_diff_hunks(&s.ours_ops);
                let h2 = extract_diff_hunks(&s.theirs_ops);
                if !hunks_fit(&h1) || !hunks_fit(&h2) {
                    return None;
                }
                let c = detect_overlapping_hunks(s.path.as_str(), &h1, &h2);
                return Some(c);
            }
        },
        _ => {},
    }
    proof {
        assert(out@.map_values(|c: ConflictHunk| c@) =~= file_outcome(*s).unwrap());
    }
    Some(out)
}

/// The paths of the files, in order.
pub open spec fn file_paths(files: Seq<FileSides>) -> Seq<Seq<char>> {
    files.map_values(|f: FileSides| f.path@)
}

/// No two of the paths are equal as paths.
pub open spec fn paths_distinct(s: Seq<Seq<char>>) -> bool {
    forall|a: int, b: int|
        0 <= a < s.len() && 0 <= b < s.len() && a != b ==> path_order(#[trigger] s[a], #[trigger] s[b]) != 0
}

/// Every file is either clean or adds its path to the conflicting ones,
/// and those paths are paths of the files.
proof fn lemma_tally_paths(files: Seq<FileSides>)
    requires
        tally(files) is Some,
    ensures
        ({
            let (c, fs, hs) = tally(files).unwrap();
            &&& c + fs.len() == files.len()
            &&& forall|k: int|
                0 <= k < fs.len() ==> exists|a: int| 0 <= a < files.len() && #[trigger] fs[k] == files[a].path@
            &&& paths_distinct(file_paths(files)) ==> paths_distinct(fs)
        }),
    decreases files.len(),
{
    if files.len() > 0 {
        let w = files.drop_last();
        lemma_tally_paths(w);
        let (c0, fs0, hs0) = tally(w).unwrap();
        let (c, fs, hs) = tally(files).unwrap();
        assert forall|k: int| 0 <= k < fs0.len() implies exists|a: int|
            0 <= a < w.len() && #[trigger] fs0[k] == files[a].path@ by {
            let a = choose|a: int| 0 <= a < w.len() && fs0[k] == w[a].path@;
            assert(w[a] == files[a]);
        }
        if fs != fs0 {
            assert(fs == fs0.push(files.last().path@));
            assert forall|k: int| 0 <= k < fs.len() implies exists|a: int|
                0 <= a < files.len() && #[trigger] fs[k] == files[a].path@ by {
                if k < fs0.len() {
                    assert(fs[k] == fs0[k]);
                } else {
                    assert(fs[k] == files[files.len() - 1].path@);
                }
            }
            if paths_distinct(file_paths(files)) {
                let fp = file_paths(files);
                assert(paths_distinct(file_paths(w))) by {
                    assert forall|a: int, b: int|
                        0 <= a < file_paths(w).len() && 0 <= b < file_paths(w).len() && a != b implies path_order(
                        #[trigger] file_paths(w)[a],
                        #[trigger] file_paths(w)[b],
                    ) != 0 by {
                        assert(file_paths(w)[a] == fp[a] && file_paths(w)[b] == fp[b]);
                    }
                }
                assert forall|a: int, b: int|
                    0 <= a < fs.len() && 0 <= b < fs.len() && a != b implies path_order(#[trigger] fs[a], #[trigger] fs[b]) != 0 by {
                    let last = files.len() - 1;
                    if a < fs0.len() && b < fs0.len() {
                        assert(fs[a] == fs0[a] && fs[b] == fs0[b]);
                    } else if a < fs0.len() {
                        let i = choose|i: int| 0 <= i < w.len() && fs0[a] == files[i].path@;
                        assert(fs[a] == fp[i] && fs[b] == fp[last]);
                    } else {
                        let i = choose|i: int| 0 <= i < w.len() && fs0[b] == files[i].path@;
                        assert(fs[b] == fp[i] && fs[a] == fp[last]);
                    }
                }
            }
        } else {
            if paths_distinct(file_paths(files)) {
                let fp = file_paths(files);
                assert(paths_distinct(file_paths(w))) by {
                    assert forall|a: int, b: int|
                        0 <= a < file_paths(w).len() && 0 <= b < file_paths(w).len() && a != b implies path_order(
                        #[trigger] file_paths(w)[a],
                        #[trigger] file_paths(w)[b],
                    ) != 0 by {
                        assert(file_paths(w)[a] == fp[a] && file_paths(w)[b] == fp[b]);
                    }
                }
            }
        }
    }
}

/// The conflicting paths of a prediction, sorted as paths (`sv`) and then
/// deduplicated (`cf`): in order, each strictly before the next, taken
/// from the paths with conflicts, covering each of them, and all kept when
/// the files' paths are distinct.
proof fn lemma_conflicting_paths(files: Seq<FileSides>, fs: Seq<Seq<char>>, sv: Seq<Seq<char>>, cf: Seq<Seq<char>>)
    requires
        tally(files) is Some,
        tally(files).unwrap().1 == fs,
        sv.to_multiset() == fs.to_multiset(),
        paths_ordered(sv),
        exists|p: Seq<int>| stable_arrangement(fs, sv, p),
        cf == path_deduped(sv),
    ensures
        paths_ordered(cf),
        forall|k: int| 0 <= k < cf.len() - 1 ==> path_order(#[trigger] cf[k], cf[k + 1]) < 0,
        forall|k: int| 0 <= k < cf.len() ==> fs.contains(#[trigger] cf[k]),
        forall|j: int|
            #![trigger fs[j]]
            0 <= j < fs.len() ==> exists|k: int| 0 <= k < cf.len() && path_order(#[trigger] cf[k], fs[j]) == 0,
        tally(files).unwrap().0 + fs.len() == files.len(),
        paths_distinct(file_paths(files)) ==> tally(files).unwrap().0 + cf.len() == files.len(),
{
    lemma_tally_paths(files);
    lemma_deduped_positions(sv);
    lemma_deduped_covers(sv);
    lemma_deduped_ordered(sv);
    sv.to_multiset_ensures();
    fs.to_multiset_ensures();
    assert forall|k: int| 0 <= k < cf.len() implies fs.contains(#[trigger] cf[k]) by {
        let q = deduped_positions(sv);
        assert(cf[k] == sv[q[k]]);
        assert(sv.contains(sv[q[k]]));
        assert(sv.to_multiset().count(cf[k]) > 0);
    }
    assert forall|j: int| #![trigger fs[j]] 0 <= j < fs.len() implies exists|k: int|
        0 <= k < cf.len() && path_order(#[trigger] cf[k], fs[j]) == 0 by {
        assert(fs.contains(fs[j]));
        assert(fs.to_multiset().count(fs[j]) > 0);
        assert(sv.contains(fs[j]));
        let i = choose|i: int| 0 <= i < sv.len() && sv[i] == fs[j];
        assert(sv[i] == fs[j]);
    }
    if paths_distinct(file_paths(files)) {
        assert(paths_distinct(fs));
        let p = choose|p: Seq<int>| stable_arrangement(fs, sv, p);
        assert forall|a: int, b: int| 0 <= a < b < sv.len() implies path_order(#[trigger] sv[a], #[trigger] sv[b]) != 0 by {
            assert(sv[a] == fs[p[a]] && sv[b] == fs[p[b]]);
            assert(p[a] != p[b]);
        }
        lemma_deduped_distinct(sv);
    }
}

/// The outcome of a prediction: whether there are conflicts, how many,
/// the paths that merge cleanly, the conflicting paths (sorted as paths,
/// each once) and the conflicts.
pub struct ForeseeOutcome {
    pub has_conflicts: bool,
    pub conflict_count: usize,
    pub clean_file_count: usize,
    pub conflicting_files: Vec<String>,
    pub conflict_hunks: Vec<ConflictHunk>,
}

/// What a three-way prediction over the given paths finds; none when a
/// path's hunks reach the largest `usize`.
pub fn predict_files(files: &Vec<FileSides>) -> (r: Option<ForeseeOutcome>)
    requires
        all_ops_bounded(files@),
    ensures
        match (r, tally(files@)) {
            (Some(o), Some((c, fs, hs))) => {
                &&& o.clean_file_count == c
                &&& strs_view(o.conflicting_files@) == path_deduped(path_sorted(fs))
                &&& o.conflict_hunks@.map_values(|h: ConflictHunk| h@) == hs
                &&& o.conflict_count == hs.len()
                &&& o.has_conflicts == (hs.len() > 0)
                &&& paths_ordered(strs_view(o.conflicting_files@))
                &&& forall|k: int|
                    0 <= k < o.conflicting_files@.len() - 1 ==> path_order(
                        #[trigger] strs_view(o.conflicting_files@)[k],
                        strs_view(o.conflicting_files@)[k + 1],
                    ) < 0
                &&& forall|k: int|
                    0 <= k < o.conflicting_files@.len() ==> fs.contains(
                        #[trigger] strs_view(o.conflicting_files@)[k],
                    )
                &&& forall|j: int|
                    #![trigger fs[j]]
                    0 <= j < fs.len() ==> exists|k: int|
                        0 <= k < o.conflicting_files@.len() && path_order(
                            #[trigger] strs_view(o.conflicting_files@)[k],
                            fs[j],
                        ) == 0
                &&& c + fs.len() == files@.len()
                &&& paths_distinct(file_paths(files@)) ==> c + o.conflicting_files@.len() == files@.len()
            },
            (None, None) => true,
            _ => false,
        },
{
    let mut clean: usize = 0;
    let mut paths: Vec<String> = Vec::new();
    let mut hunks: Vec<ConflictHunk> = Vec::new();
    let mut i: usize = 0;
    proof {
        assert(files@.take(0) =~= Seq::<FileSides>::empty());
        assert(strs_view(paths@) =~= Seq::<Seq<char>>::empty());
        assert(hunks@.map_values(|h: ConflictHunk| h@) =~= Seq::<ConflictHunkView>::empty());
    }
    while i < files.len()
        invariant
            i <= files.len(),
            all_ops_bounded(files@),
            clean <= i,
            tally(files@.take(i as int)) == Some(
                (clean as nat, strs_view(paths@), hunks@.map_values(|h: ConflictHunk| h@)),
            ),
        decreases files.len() - i,
    {
        let f = &files[i];
        proof {
            assert(files@.take(i + 1).drop_last() =~= files@.take(i as int));
            assert(files@.take(i + 1).last() == *f);
            assert(ops_bounded(op_views(files@[i as int].ours_ops@)));
        }
        match predict_file(f) {
            None => {
                proof {
                    lemma_tally_none_stays(files@, i as int + 1);
                }
                return None;
            },
            Some(found) => {
                if found.len() == 0 {
                    clean = clean + 1;
                } else {
                    let ghost before_p = strs_view(paths@);
                    let ghost before_h = hunks@.map_values(|h: ConflictHunk| h@);
                    paths.push(f.path.clone());
                    let mut found = found;
                    let ghost fv = found@.map_values(|h: ConflictHunk| h@);
                    hunks.append(&mut found);
                    proof {
                        assert(strs_view(paths@) =~= before_p.push(f.path@));
                        assert(hunks@.map_values(|h: ConflictHunk| h@) =~= before_h + fv);
                    }
                }
            },
        }
        i = i + 1;
    }
    proof {
        assert(files@.take(files.len() as int) =~= files@);
    }
    let count = hunks.len();
    let ghost fs = strs_view(paths@);
    let sorted = sort_paths(paths);
    let ghost sv = strs_view(sorted@);
    let conflicting = dedup_paths(sorted);
    proof {
        lemma_conflicting_paths(files@, fs, sv, strs_view(conflicting@));
    }
    Some(
        ForeseeOutcome {
            has_conflicts: count > 0,
            conflict_count: count,
            clean_file_count: clean,
            conflicting_files: conflicting,
            conflict_hunks: hunks,
        },
    )
}

/// Once a prefix of the paths has no tally, no longer prefix has one.
proof fn lemma_tally_none_stays(files: Seq<FileSides>, n: int)
    requires
        0 <= n <= files.len(),
        tally(files.take(n)) is None || (n > 0 && file_outcome(files[n - 1]) is None),
    ensures
        tally(files) is None,
    decreases files.len() - n,
{
    if n > 0 && file_outcome(files[n - 1]) is None {
        assert(files.take(n).drop_last() =~= files.take(n - 1));
        assert(files.take(n).last() == files[n - 1]);
    }
    if n < files.len() {
        assert(files.take(n + 1).drop_last() =~= files.take(n));
        lemma_tally_none_stays(files, n + 1);
    } else {
        assert(files.take(n) =~= files);
    }
}

/// What `Vec::dedup` leaves of paths as `PathBuf`s: each path that
/// compares equal to the last one kept is dropped, so each run of paths
/// equal as paths is kept once, as its first.
pub open spec fn path_deduped(v: Seq<Seq<char>>) -> Seq<Seq<char>>
    decreases v.len(),
{
    if v.len() == 0 {
        Seq::empty()
    } else {
        let d = path_deduped(v.drop_last());
        if d.len() > 0 && path_order(d.last(), v.last()) == 0 {
            d
        } else {
            d.push(v.last())
        }
    }
}

/// The positions in `v` of what `path_deduped` keeps.
pub open spec fn deduped_positions(v: Seq<Seq<char>>) -> Seq<int>
    decreases v.len(),
{
    if v.len() == 0 {
        Seq::empty()
    } else {
        let d = path_deduped(v.drop_last());
        let q = deduped_positions(v.drop_last());
        if d.len() > 0 && path_order(d.last(), v.last()) == 0 {
            q
        } else {
            q.push(v.len() - 1)
        }
    }
}

/// What dedup keeps is taken, in order, from the input.
proof fn lemma_deduped_positions(v: Seq<Seq<char>>)
    ensures
        deduped_positions(v).len() == path_deduped(v).len(),
        forall|k: int|
            0 <= k < path_deduped(v).len() ==> 0 <= #[trigger] deduped_positions(v)[k] < v.len()
                && path_deduped(v)[k] == v[deduped_positions(v)[k]],
        forall|k: int, m: int|
            0 <= k < m < path_deduped(v).len() ==> #[trigger] deduped_positions(v)[k]
                < #[trigger] deduped_positions(v)[m],
    decreases v.len(),
{
    if v.len() > 0 {
        let w = v.drop_last();
        lemma_deduped_positions(w);
        let q0 = deduped_positions(w);
        let d0 = path_deduped(w);
        assert forall|k: int| 0 <= k < d0.len() implies 0 <= #[trigger] q0[k] < v.len() && d0[k] == v[q0[k]] by {
            assert(w[q0[k]] == v[q0[k]]);
        }
    }
}

/// Every input path is equal, as a path, to one that dedup keeps.
proof fn lemma_deduped_covers(v: Seq<Seq<char>>)
    ensures
        forall|j: int|
            #![trigger v[j]]
            0 <= j < v.len() ==> exists|k: int|
                0 <= k < path_deduped(v).len() && path_order(#[trigger] path_deduped(v)[k], v[j]) == 0,
    decreases v.len(),
{
    if v.len() > 0 {
        let w = v.drop_last();
        lemma_deduped_covers(w);
        let d0 = path_deduped(w);
        let d = path_deduped(v);
        let x = v.last();
        if !(d0.len() > 0 && path_order(d0.last(), x) == 0) {
            assert(d == d0.push(x));
        }
        assert forall|j: int| #![trigger v[j]] 0 <= j < v.len() implies exists|k: int|
            0 <= k < d.len() && path_order(#[trigger] d[k], v[j]) == 0 by {
            if j < w.len() {
                assert(w[j] == v[j]);
                let k = choose|k: int| 0 <= k < d0.len() && path_order(#[trigger] d0[k], w[j]) == 0;
                assert(d[k] == d0[k]);
            } else if d0.len() > 0 && path_order(d0.last(), x) == 0 {
                assert(path_order(d[d.len() - 1], v[j]) == 0);
            } else {
                lemma_path_order_refl(x);
                assert(path_order(d[d.len() - 1], v[j]) == 0);
            }
        }
    }
}

/// Dedup of ordered paths is ordered, and each kept path is strictly
/// before the next one kept.
proof fn lemma_deduped_ordered(v: Seq<Seq<char>>)
    requires
        paths_ordered(v),
    ensures
        paths_ordered(path_deduped(v)),
        forall|k: int|
            0 <= k < path_deduped(v).len() - 1 ==> path_order(#[trigger] path_deduped(v)[k], path_deduped(v)[k + 1]) < 0,
    decreases v.len(),
{
    if v.len() > 0 {
        let w = v.drop_last();
        assert(paths_ordered(w)) by {
            assert forall|i: int, j: int| 0 <= i < j < w.len() implies path_order(#[trigger] w[i], #[trigger] w[j]) <= 0 by {
                assert(w[i] == v[i] && w[j] == v[j]);
            }
        }
        lemma_deduped_ordered(w);
        lemma_deduped_positions(v);
        lemma_deduped_positions(w);
        let d0 = path_deduped(w);
        let q0 = deduped_positions(w);
        let d = path_deduped(v);
        let q = deduped_positions(v);
        let x = v.last();
        if !(d0.len() > 0 && path_order(d0.last(), x) == 0) {
            assert(d == d0.push(x));
            assert(q == q0.push(v.len() - 1));
            assert forall|i: int, j: int| 0 <= i < j < d.len() implies path_order(#[trigger] d[i], #[trigger] d[j]) <= 0 by {
                assert(d[i] == v[q[i]]);
                assert(d[j] == v[q[j]]);
                assert(q[i] < q[j]);
            }
            assert forall|k: int| 0 <= k < d.len() - 1 implies path_order(#[trigger] d[k], d[k + 1]) < 0 by {
                if k + 1 < d0.len() {
                    assert(d[k] == d0[k] && d[k + 1] == d0[k + 1]);
                } else {
                    assert(d[k] == v[q[k]]);
                    assert(q[k] < q[k + 1]);
                    assert(d[k + 1] == v[q[k + 1]]);
                }
            }
        }
    }
}

/// Dedup keeps every one of pairwise distinct paths.
proof fn lemma_deduped_distinct(v: Seq<Seq<char>>)
    requires
        forall|a: int, b: int| 0 <= a < b < v.len() ==> path_order(#[trigger] v[a], #[trigger] v[b]) != 0,
    ensures
        path_deduped(v) == v,
    decreases v.len(),
{
    if v.len() > 0 {
        let w = v.drop_last();
        assert forall|a: int, b: int| 0 <= a < b < w.len() implies path_order(#[trigger] w[a], #[trigger] w[b]) != 0 by {
            assert(w[a] == v[a] && w[b] == v[b]);
        }
        lemma_deduped_distinct(w);
        if w.len() > 0 {
            assert(path_order(v[w.len() - 1], v[v.len() - 1]) != 0);
        }
        assert(path_deduped(v) =~= w.push(v.last()));
        assert(v =~= w.push(v.last()));
    }
}

/// `Vec::dedup` on the paths as `PathBuf`s, which drops each path equal
/// (as a path, component by component) to the last one kept.
#[verifier::external_body]
fn dedup_paths(v: Vec<String>) -> (r: Vec<String>)
    ensures
        strs_view(r@) == path_deduped(strs_view(v@)),
{
    let mut p: Vec<std::path::PathBuf> = v.into_iter().map(std::path::PathBuf::from).collect();
    p.dedup();
    p.into_iter().map(|x| x.to_string_lossy().into_owned()).collect()
}

// ---------------------------------------------------------------------------
// A prediction does not depend on which side is ours
// ---------------------------------------------------------------------------

/// Our region `h1` has no conflict with the first `n` of theirs exactly
/// when it conflicts with none of them.
proof fn lemma_overlap_row_empty(path: Seq<char>, h1: DiffHunkView, hs2: Seq<DiffHunkView>, n: int)
    requires
        0 <= n <= hs2.len(),
    ensures
        (overlap_row(path, h1, hs2, n).len() == 0) == (forall|b: int|
            0 <= b < n ==> !regions_conflict(h1, #[trigger] hs2[b])),
    decreases n,
{
    if n > 0 {
        lemma_overlap_row_empty(path, h1, hs2, n - 1);
    }
}

/// Our first `m` regions have no conflict with theirs exactly when no pair
/// of them conflicts.
proof fn lemma_overlap_rows_empty(path: Seq<char>, hs1: Seq<DiffHunkView>, hs2: Seq<DiffHunkView>, m: int)
    requires
        0 <= m <= hs1.len(),
    ensures
        (overlap_rows(path, hs1, hs2, m).len() == 0) == (forall|a: int, b: int|
            0 <= a < m && 0 <= b < hs2.len() ==> !regions_conflict(#[trigger] hs1[a], #[trigger] hs2[b])),
    decreases m,
{
    if m > 0 {
        lemma_overlap_rows_empty(path, hs1, hs2, m - 1);
        lemma_overlap_row_empty(path, hs1[m - 1], hs2, hs2.len() as int);
    }
}

/// Two lists of changed regions conflict somewhere exactly when they do
/// the other way round.
pub proof fn lemma_overlaps_symmetric(path: Seq<char>, hs1: Seq<DiffHunkView>, hs2: Seq<DiffHunkView>)
    ensures
        (overlap_rows(path, hs1, hs2, hs1.len() as int).len() == 0) == (overlap_rows(
            path,
            hs2,
            hs1,
            hs2.len() as int,
        ).len() == 0),
{
    lemma_overlap_rows_empty(path, hs1, hs2, hs1.len() as int);
    lemma_overlap_rows_empty(path, hs2, hs1, hs2.len() as int);
    assert forall|a: int, b: int|
        0 <= a < hs1.len() && 0 <= b < hs2.len() implies regions_conflict(#[trigger] hs1[a], #[trigger] hs2[b])
        == regions_conflict(hs2[b], hs1[a]) by {
        lemma_region_conflict_symmetric(hs1[a], hs2[b]);
    }
}

/// The same path with the two sides exchanged.
pub open spec fn swapped(s: FileSides) -> FileSides {
    FileSides {
        path: s.path,
        base: s.base,
        ours: s.theirs,
        theirs: s.ours,
        ours_text: s.theirs_text,
        theirs_text: s.ours_text,
        binary: s.binary,
        ours_ops: s.theirs_ops,
        theirs_ops: s.ours_ops,
    }
}

/// Whether a path conflicts does not depend on which side is ours.
pub proof fn lemma_file_outcome_symmetric(s: FileSides)
    ensures
        (file_outcome(s) is Some) == (file_outcome(swapped(s)) is Some),
        file_outcome(s) is Some ==> (file_outcome(s).unwrap().len() == 0) == (file_outcome(
            swapped(s),
        ).unwrap().len() == 0),
{
    let h1 = diff_hunks(op_views(s.ours_ops@));
    let h2 = diff_hunks(op_views(s.theirs_ops@));
    lemma_overlaps_symmetric(s.path@, h1, h2);
}

/// The paths with the sides exchanged.
pub open spec fn all_swapped(files: Seq<FileSides>) -> Seq<FileSides> {
    files.map_values(|s: FileSides| swapped(s))
}

/// A prediction finds the same clean paths and the same conflicting paths
/// whichever dimension is ours.
pub proof fn lemma_prediction_symmetric(files: Seq<FileSides>)
    ensures
        (tally(files) is Some) == (tally(all_swapped(files)) is Some),
        tally(files) is Some ==> {
            let (c1, f1, h1) = tally(files).unwrap();
            let (c2, f2, h2) = tally(all_swapped(files)).unwrap();
            &&& c1 == c2
            &&& f1 == f2
            &&& (h1.len() == 0) == (h2.len() == 0)
        },
    decreases files.len(),
{
    if files.len() > 0 {
        let u = files.drop_last();
        lemma_prediction_symmetric(u);
        assert(all_swapped(files).drop_last() =~= all_swapped(u));
        assert(all_swapped(files).last() == swapped(files.last()));
        lemma_file_outcome_symmetric(files.last());
    }
}

// ---------------------------------------------------------------------------
// The amount of conflict does not depend on which side is ours
// ---------------------------------------------------------------------------

/// What a conflict weighs: one, or the lines on its two sides.
pub open spec fn hunk_weight(h: ConflictHunkView, lines: bool) -> nat {
    if lines {
        h.ours_lines.len() + h.theirs_lines.len()
    } else {
        1
    }
}

/// What the conflicts weigh together.
pub open spec fn hunks_weight(hs: Seq<ConflictHunkView>, lines: bool) -> nat
    decreases hs.len(),
{
    if hs.len() == 0 {
        0
    } else {
        hunks_weight(hs.drop_last(), lines) + hunk_weight(hs.last(), lines)
    }
}

proof fn lemma_hunks_weight_concat(a: Seq<ConflictHunkView>, b: Seq<ConflictHunkView>, lines: bool)
    ensures
        hunks_weight(a + b, lines) == hunks_weight(a, lines) + hunks_weight(b, lines),
    decreases b.len(),
{
    if b.len() == 0 {
        assert(a + b =~= a);
    } else {
        assert((a + b).drop_last() =~= a + b.drop_last());
        lemma_hunks_weight_concat(a, b.drop_last(), lines);
    }
}

/// What the conflict of two regions weighs, if they conflict.
pub open spec fn pair_weight(h1: DiffHunkView, h2: DiffHunkView, lines: bool) -> nat {
    if regions_conflict(h1, h2) {
        if lines {
            h1.inserted_lines.len() + h2.inserted_lines.len()
        } else {
            1
        }
    } else {
        0
    }
}

/// The weights of region `h1` against the first `n` of `hs2`.
pub open spec fn row_sum(h1: DiffHunkView, hs2: Seq<DiffHunkView>, n: int, lines: bool) -> nat
    decreases n,
{
    if n <= 0 || n > hs2.len() {
        0
    } else {
        row_sum(h1, hs2, n - 1, lines) + pair_weight(h1, hs2[n - 1], lines)
    }
}

/// The weights of the first `m` regions of `hs1` against all of `hs2`.
pub open spec fn rows_sum(hs1: Seq<DiffHunkView>, hs2: Seq<DiffHunkView>, m: int, lines: bool) -> nat
    decreases m,
{
    if m <= 0 || m > hs1.len() {
        0
    } else {
        rows_sum(hs1, hs2, m - 1, lines) + row_sum(hs1[m - 1], hs2, hs2.len() as int, lines)
    }
}

/// The weights of the first `m` regions of `hs1` against region `h2`.
pub open spec fn col_sum(hs1: Seq<DiffHunkView>, h2: DiffHunkView, m: int, lines: bool) -> nat
    decreases m,
{
    if m <= 0 || m > hs1.len() {
        0
    } else {
        col_sum(hs1, h2, m - 1, lines) + pair_weight(hs1[m - 1], h2, lines)
    }
}

/// The weights of the first `m` regions of `hs1` against the first `n` of
/// `hs2`, column by column.
pub open spec fn cols_sum(hs1: Seq<DiffHunkView>, hs2: Seq<DiffHunkView>, m: int, n: int, lines: bool) -> nat
    decreases n,
{
    if n <= 0 || n > hs2.len() {
        0
    } else {
        cols_sum(hs1, hs2, m, n - 1, lines) + col_sum(hs1, hs2[n - 1], m, lines)
    }
}

proof fn lemma_overlap_row_weight(path: Seq<char>, h1: DiffHunkView, hs2: Seq<DiffHunkView>, n: int, lines: bool)
    requires
        0 <= n <= hs2.len(),
    ensures
        hunks_weight(overlap_row(path, h1, hs2, n), lines) == row_sum(h1, hs2, n, lines),
    decreases n,
{
    if n > 0 {
        lemma_overlap_row_weight(path, h1, hs2, n - 1, lines);
        if regions_conflict(h1, hs2[n - 1]) {
            let r = overlap_row(path, h1, hs2, n - 1);
            assert(r.push(overlap_conflict(path, h1, hs2[n - 1])).drop_last() =~= r);
        }
    }
}

proof fn lemma_overlap_rows_weight(path: Seq<char>, hs1: Seq<DiffHunkView>, hs2: Seq<DiffHunkView>, m: int, lines: bool)
    requires
        0 <= m <= hs1.len(),
    ensures
        hunks_weight(overlap_rows(path, hs1, hs2, m), lines) == rows_sum(hs1, hs2, m, lines),
    decreases m,
{
    if m > 0 {
        lemma_overlap_rows_weight(path, hs1, hs2, m - 1, lines);
        lemma_overlap_row_weight(path, hs1[m - 1], hs2, hs2.len() as int, lines);
        lemma_hunks_weight_concat(
            overlap_rows(path, hs1, hs2, m - 1),
            overlap_row(path, hs1[m - 1], hs2, hs2.len() as int),
            lines,
        );
    }
}

/// Adding one more region of `hs1` adds its row to the columns.
proof fn lemma_cols_add_row(hs1: Seq<DiffHunkView>, hs2: Seq<DiffHunkView>, m: int, n: int, lines: bool)
    requires
        0 <= m < hs1.len(),
        0 <= n <= hs2.len(),
    ensures
        cols_sum(hs1, hs2, m + 1, n, lines) == cols_sum(hs1, hs2, m, n, lines) + row_sum(hs1[m], hs2, n, lines),
    decreases n,
{
    if n > 0 {
        lemma_cols_add_row(hs1, hs2, m, n - 1, lines);
    }
}

/// Summing by rows or by columns gives the same.
proof fn lemma_rows_are_cols(hs1: Seq<DiffHunkView>, hs2: Seq<DiffHunkView>, m: int, lines: bool)
    requires
        0 <= m <= hs1.len(),
    ensures
        rows_sum(hs1, hs2, m, lines) == cols_sum(hs1, hs2, m, hs2.len() as int, lines),
    decreases m,
{
    if m == 0 {
        lemma_cols_zero(hs1, hs2, hs2.len() as int, lines);
    } else {
        lemma_rows_are_cols(hs1, hs2, m - 1, lines);
        lemma_cols_add_row(hs1, hs2, m - 1, hs2.len() as int, lines);
    }
}

proof fn lemma_cols_zero(hs1: Seq<DiffHunkView>, hs2: Seq<DiffHunkView>, n: int, lines: bool)
    requires
        0 <= n <= hs2.len(),
    ensures
        cols_sum(hs1, hs2, 0, n, lines) == 0,
    decreases n,
{
    if n > 0 {
        lemma_cols_zero(hs1, hs2, n - 1, lines);
    }
}

/// A column of `hs1` against `h2` weighs what the row of `h2` against
/// `hs1` weighs.
proof fn lemma_col_is_row(hs1: Seq<DiffHunkView>, h2: DiffHunkView, m: int, lines: bool)
    requires
        0 <= m <= hs1.len(),
    ensures
        col_sum(hs1, h2, m, lines) == row_sum(h2, hs1, m, lines),
    decreases m,
{
    if m > 0 {
        lemma_col_is_row(hs1, h2, m - 1, lines);
        lemma_region_conflict_symmetric(hs1[m - 1], h2);
    }
}

proof fn lemma_cols_are_swapped_rows(hs1: Seq<DiffHunkView>, hs2: Seq<DiffHunkView>, n: int, lines: bool)
    requires
        0 <= n <= hs2.len(),
    ensures
        cols_sum(hs1, hs2, hs1.len() as int, n, lines) == rows_sum(hs2, hs1, n, lines),
    decreases n,
{
    if n > 0 {
        lemma_cols_are_swapped_rows(hs1, hs2, n - 1, lines);
        lemma_col_is_row(hs1, hs2[n - 1], hs1.len() as int, lines);
    }
}

/// The conflicts of two lists of regions weigh the same either way round,
/// counted one by one or by their lines.
pub proof fn lemma_overlap_weight_symmetric(path: Seq<char>, hs1: Seq<DiffHunkView>, hs2: Seq<DiffHunkView>, lines: bool)
    ensures
        hunks_weight(overlap_rows(path, hs1, hs2, hs1.len() as int), lines) == hunks_weight(
            overlap_rows(path, hs2, hs1, hs2.len() as int),
            lines,
        ),
{
    lemma_overlap_rows_weight(path, hs1, hs2, hs1.len() as int, lines);
    lemma_overlap_rows_weight(path, hs2, hs1, hs2.len() as int, lines);
    lemma_rows_are_cols(hs1, hs2, hs1.len() as int, lines);
    lemma_cols_are_swapped_rows(hs1, hs2, hs2.len() as int, lines);
}

/// A path's conflicts weigh the same whichever side is ours.
pub proof fn lemma_file_weight_symmetric(s: FileSides, lines: bool)
    requires
        file_outcome(s) is Some,
    ensures
        hunks_weight(file_outcome(s).unwrap(), lines) == hunks_weight(file_outcome(swapped(s)).unwrap(), lines),
{
    lemma_file_outcome_symmetric(s);
    let h1 = diff_hunks(op_views(s.ours_ops@));
    let h2 = diff_hunks(op_views(s.theirs_ops@));
    lemma_overlap_weight_symmetric(s.path@, h1, h2, lines);
    let o = file_outcome(s).unwrap();
    let w = file_outcome(swapped(s)).unwrap();
    if o.len() == 1 {
        assert(o.drop_last() =~= Seq::<ConflictHunkView>::empty());
    }
    if w.len() == 1 {
        assert(w.drop_last() =~= Seq::<ConflictHunkView>::empty());
    }
}

/// A prediction finds as many conflicts, with as many lines on their sides,
/// whichever dimension is ours.
pub proof fn lemma_prediction_weight_symmetric(files: Seq<FileSides>, lines: bool)
    requires
        tally(files) is Some,
    ensures
        tally(all_swapped(files)) is Some,
        hunks_weight(tally(files).unwrap().2, lines) == hunks_weight(tally(all_swapped(files)).unwrap().2, lines),
    decreases files.len(),
{
    lemma_prediction_symmetric(files);
    if files.len() > 0 {
        let u = files.drop_last();
        assert(all_swapped(files).drop_last() =~= all_swapped(u));
        assert(all_swapped(files).last() == swapped(files.last()));
        lemma_prediction_weight_symmetric(u, lines);
        lemma_file_outcome_symmetric(files.last());
        lemma_file_weight_symmetric(files.last(), lines);
        let a = tally(u).unwrap().2;
        let b = tally(all_swapped(u)).unwrap().2;
        lemma_hunks_weight_concat(a, file_outcome(files.last()).unwrap(), lines);
        lemma_hunks_weight_concat(b, file_outcome(swapped(files.last())).unwrap(), lines);
    }
}

} // verus!
