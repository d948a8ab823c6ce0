//! The integer side of the entropy between two dimensions: which paths each
//! changed from their common base, the paths both changed and those only
//! one changed, the lines in conflict and the commits since the base. The
//! weighted score built from these is floating point and is not here.
use vstd::prelude::*;
use crate::agent::status::{lemma_path_lt_transitive, lemma_path_lt_trichotomy, path_lt};
use crate::foresee::ConflictHunk;
use crate::observe::{path_sorted, paths_ordered, sort_paths};
use crate::radar::{dedup_sorted, in_order, lemma_in_order_is, sort_strings, strictly_sorted_texts};
use crate::commands::agent::any_is;
use crate::text::{opt_eq, opt_view, str_eq, strs_view};

verus! {

broadcast use vstd::seq_lib::group_to_multiset_ensures;

/// A file of a tree or of a dimension: its path and its bytes.
pub struct FileContent {
    pub path: String,
    pub data: Vec<u8>,
}

/// No path occurs twice (the files come from a map keyed by path).
pub open spec fn distinct_paths(v: Seq<FileContent>) -> bool {
    forall|i: int, j: int| 0 <= i < j < v.len() ==> (#[trigger] v[i]).path@ != (#[trigger] v[j]).path@
}

/// Whether some file has path `p`.
pub open spec fn holds(v: Seq<FileContent>, p: Seq<char>) -> bool {
    exists|k: int| 0 <= k < v.len() && (#[trigger] v[k]).path@ == p
}

/// The bytes of the file with path `p`.
pub open spec fn data_at(v: Seq<FileContent>, p: Seq<char>) -> Seq<u8> {
    v[choose|k: int| 0 <= k < v.len() && (#[trigger] v[k]).path@ == p].data@
}

/// Whether path `p` differs between the base and a dimension: present in the
/// dimension but absent from the base or with other bytes, or present in the
/// base and gone from the dimension.
pub open spec fn changed_from(base: Seq<FileContent>, files: Seq<FileContent>, p: Seq<char>) -> bool {
    ||| holds(files, p) && (!holds(base, p) || data_at(base, p) != data_at(files, p))
    ||| holds(base, p) && !holds(files, p)
}

/// The paths a dimension changed from the base.
pub open spec fn modified_set(base: Seq<FileContent>, files: Seq<FileContent>) -> Set<Seq<char>> {
    Set::new(|p: Seq<char>| changed_from(base, files, p))
}

/// Whether two byte strings are equal.
pub(crate) fn bytes_eq(a: &Vec<u8>, b: &Vec<u8>) -> (r: bool)
    ensures
        r == (a@ == b@),
{
    if a.len() != b.len() {
        return false;
    }
    let mut i: usize = 0;
    while i < a.len()
        invariant
            i <= a.len(),
            a.len() == b.len(),
            forall|k: int| 0 <= k < i ==> a@[k] == b@[k],
        decreases a.len() - i,
    {
        if a[i] != b[i] {
            return false;
        }
        i = i + 1;
    }
    proof {
        assert(a@ =~= b@);
    }
    true
}

/// Where the file with path `p` is.
pub(crate) fn find_file(v: &Vec<FileContent>, p: &str) -> (r: Option<usize>)
    requires
        distinct_paths(v@),
    ensures
        match r {
            Some(k) => k < v@.len() && v@[k as int].path@ == p@ && holds(v@, p@) && data_at(v@, p@)
                == v@[k as int].data@,
            None => !holds(v@, p@),
        },
{
    let mut i: usize = 0;
    while i < v.len()
        invariant
            i <= v.len(),
            distinct_paths(v@),
            forall|k: int| 0 <= k < i ==> (#[trigger] v@[k]).path@ != p@,
        decreases v.len() - i,
    {
        if str_eq(v[i].path.as_str(), p) {
            proof {
                let c = choose|k: int| 0 <= k < v@.len() && (#[trigger] v@[k]).path@ == p@;
                if c != i {
                    if c < i {
                        assert(v@[c].path@ != v@[i as int].path@);
                    } else {
                        assert(v@[i as int].path@ != v@[c].path@);
                    }
                }
            }
            return Some(i);
        }
        i = i + 1;
    }
    None
}

/// The paths a dimension changed from the base, each once, in order.
pub fn modified_paths(base: &Vec<FileContent>, files: &Vec<FileContent>) -> (r: Vec<String>)
    requires
        distinct_paths(base@),
        distinct_paths(files@),
    ensures
        strs_view(r@) == in_order(modified_set(base@, files@)),
        strictly_sorted_texts(strs_view(r@)),
        strs_view(r@).to_set() == modified_set(base@, files@),
{
    let mut out: Vec<String> = Vec::new();
    let mut i: usize = 0;
    while i < files.len()
        invariant
            i <= files.len(),
            distinct_paths(base@),
            distinct_paths(files@),
            forall|k: int| 0 <= k < out@.len() ==> changed_from(base@, files@, #[trigger] out@[k]@),
            forall|j: int|
                0 <= j < i && changed_from(base@, files@, (#[trigger] files@[j]).path@) ==> strs_view(
                    out@,
                ).contains(files@[j].path@),
        decreases files.len() - i,
    {
        let f = &files[i];
        proof {
            assert(holds(files@, f.path@)) by {
                assert(files@[i as int].path@ == f.path@);
            }
        }
        let _ = find_file(files, f.path.as_str());
        let changed = match find_file(base, f.path.as_str()) {
            Some(k) => !bytes_eq(&base[k].data, &f.data),
            None => true,
        };
        let ghost before = out@;
        if changed {
            out.push(f.path.clone());
            proof {
                assert(strs_view(out@)[before.len() as int] == f.path@);
            }
        }
        proof {
            assert forall|j: int|
                0 <= j < i + 1 && changed_from(base@, files@, (#[trigger] files@[j]).path@) implies strs_view(
                out@,
            ).contains(files@[j].path@) by {
                if j < i {
                    let q = choose|q: int| 0 <= q < strs_view(before).len() && strs_view(before)[q] == files@[j].path@;
                    assert(strs_view(out@)[q] == files@[j].path@);
                } else {
                    assert(strs_view(out@)[before.len() as int] == f.path@);
                }
            }
        }
        i = i + 1;
    }
    let mut j: usize = 0;
    while j < base.len()
        invariant
            j <= base.len(),
            distinct_paths(base@),
            distinct_paths(files@),
            forall|k: int| 0 <= k < out@.len() ==> changed_from(base@, files@, #[trigger] out@[k]@),
            forall|q: int|
                0 <= q < files@.len() && changed_from(base@, files@, (#[trigger] files@[q]).path@) ==> strs_view(
                    out@,
                ).contains(files@[q].path@),
            forall|q: int|
                0 <= q < j && changed_from(base@, files@, (#[trigger] base@[q]).path@) ==> strs_view(
                    out@,
                ).contains(base@[q].path@),
        decreases base.len() - j,
    {
        let b = &base[j];
        proof {
            assert(holds(base@, b.path@)) by {
                assert(base@[j as int].path@ == b.path@);
            }
        }
        let ghost before = out@;
        if find_file(files, b.path.as_str()).is_none() {
            out.push(b.path.clone());
        }
        proof {
            assert forall|k: int| 0 <= k < out@.len() implies changed_from(base@, files@, #[trigger] out@[k]@) by {
                if k < before.len() {
                    assert(out@[k] == before[k]);
                }
            }
            assert forall|q: int|
                0 <= q < files@.len() && changed_from(base@, files@, (#[trigger] files@[q]).path@) implies strs_view(
                out@,
            ).contains(files@[q].path@) by {
                let w = choose|w: int| 0 <= w < strs_view(before).len() && strs_view(before)[w] == files@[q].path@;
                assert(strs_view(out@)[w] == files@[q].path@);
            }
            assert forall|q: int|
                0 <= q < j + 1 && changed_from(base@, files@, (#[trigger] base@[q]).path@) implies strs_view(
                out@,
            ).contains(base@[q].path@) by {
                if q < j {
                    let w = choose|w: int| 0 <= w < strs_view(before).len() && strs_view(before)[w] == base@[q].path@;
                    assert(strs_view(out@)[w] == base@[q].path@);
                } else if holds(files@, b.path@) {
                    let w = choose|w: int| 0 <= w < files@.len() && (#[trigger] files@[w]).path@ == b.path@;
                    assert(changed_from(base@, files@, files@[w].path@));
                } else {
                    assert(strs_view(out@)[before.len() as int] == b.path@);
                }
            }
        }
        j = j + 1;
    }
    let sorted = sort_strings(&out);
    let uniq = dedup_sorted(&sorted);
    proof {
        let ov = strs_view(out@);
        assert forall|x: Seq<char>| strs_view(sorted@).to_set().contains(x) <==> ov.to_set().contains(x) by {
            if strs_view(sorted@).contains(x) {
                assert(strs_view(sorted@).to_multiset().count(x) > 0);
            }
            if ov.contains(x) {
                assert(ov.to_multiset().count(x) > 0);
            }
        }
        assert forall|p: Seq<char>| ov.to_set().contains(p) <==> modified_set(base@, files@).contains(p) by {
            if ov.contains(p) {
                let k = choose|k: int| 0 <= k < ov.len() && ov[k] == p;
                assert(out@[k]@ == p);
            }
            if changed_from(base@, files@, p) {
                if holds(files@, p) {
                    let w = choose|w: int| 0 <= w < files@.len() && (#[trigger] files@[w]).path@ == p;
                    assert(strs_view(out@).contains(files@[w].path@));
                } else {
                    let w = choose|w: int| 0 <= w < base@.len() && (#[trigger] base@[w]).path@ == p;
                    assert(strs_view(out@).contains(base@[w].path@));
                }
            }
        }
        assert(strs_view(sorted@).to_set() =~= ov.to_set());
        assert(ov.to_set() =~= modified_set(base@, files@));
        lemma_in_order_is(strs_view(uniq@));
    }
    uniq
}

/// The paths in `a` that `b` also holds (`keep`) or does not hold, in the
/// order of `a`.
fn filter_by(a: &Vec<String>, b: &Vec<String>, keep: bool) -> (r: Vec<String>)
    requires
        strictly_sorted_texts(strs_view(a@)),
    ensures
        strictly_sorted_texts(strs_view(r@)),
        strs_view(r@).to_set() == strs_view(a@).to_set().filter(
            |x: Seq<char>| strs_view(b@).contains(x) == keep,
        ),
{
    let ghost av = strs_view(a@);
    let ghost bv = strs_view(b@);
    let mut out: Vec<String> = Vec::new();
    let mut i: usize = 0;
    proof {
        assert(strs_view(out@).to_set() =~= av.take(0).to_set().filter(|x: Seq<char>| bv.contains(x) == keep));
    }
    while i < a.len()
        invariant
            i <= a.len(),
            av == strs_view(a@),
            bv == strs_view(b@),
            strictly_sorted_texts(av),
            strictly_sorted_texts(strs_view(out@)),
            forall|k: int| 0 <= k < strs_view(out@).len() ==> exists|j: int| 0 <= j < i && av[j] == #[trigger] strs_view(out@)[k],
            strs_view(out@).to_set() == av.take(i as int).to_set().filter(|x: Seq<char>| bv.contains(x) == keep),
        decreases a.len() - i,
    {
        let ghost before = strs_view(out@);
        let x = &a[i];
        proof {
            assert(av[i as int] == x@);
            assert(av.take(i + 1) =~= av.take(i as int).push(x@));
            av.take(i as int).lemma_push_to_set_commute(x@);
        }
        if any_is(b, x.as_str()) == keep {
            out.push(x.clone());
            proof {
                assert(strs_view(out@) =~= before.push(x@));
                before.lemma_push_to_set_commute(x@);
                assert forall|p: int, q: int| 0 <= p < q < strs_view(out@).len() implies path_lt(
                    #[trigger] strs_view(out@)[p],
                    #[trigger] strs_view(out@)[q],
                ) by {
                    if q == before.len() {
                        let j = choose|j: int| 0 <= j < i && av[j] == before[p];
                        assert(path_lt(av[j], av[i as int]));
                    }
                }
                assert forall|k: int| 0 <= k < strs_view(out@).len() implies exists|j: int|
                    0 <= j < i + 1 && av[j] == #[trigger] strs_view(out@)[k] by {
                    if k < before.len() {
                        let j = choose|j: int| 0 <= j < i && av[j] == before[k];
                        assert(av[j] == strs_view(out@)[k]);
                    } else {
                        assert(av[i as int] == strs_view(out@)[k]);
                    }
                }
                assert(strs_view(out@).to_set() =~= av.take(i + 1).to_set().filter(
                    |y: Seq<char>| bv.contains(y) == keep,
                ));
            }
        } else {
            proof {
                assert(strs_view(out@).to_set() =~= av.take(i + 1).to_set().filter(
                    |y: Seq<char>| bv.contains(y) == keep,
                ));
            }
        }
        i = i + 1;
    }
    proof {
        assert(av.take(a.len() as int) =~= av);
    }
    out
}

/// The members of both lists, each once, in order.
pub(crate) fn merged_members(a: &Vec<String>, b: &Vec<String>) -> (r: Vec<String>)
    ensures
        strictly_sorted_texts(strs_view(r@)),
        strs_view(r@).to_set() == strs_view(a@).to_set() + strs_view(b@).to_set(),
{
    let mut all: Vec<String> = Vec::new();
    let mut i: usize = 0;
    while i < a.len()
        invariant
            i <= a.len(),
            strs_view(all@) == strs_view(a@).take(i as int),
        decreases a.len() - i,
    {
        let ghost before = strs_view(all@);
        all.push(a[i].clone());
        proof {
            assert(strs_view(all@) =~= before.push(a@[i as int]@));
            assert(strs_view(a@).take(i + 1) =~= strs_view(a@).take(i as int).push(a@[i as int]@));
        }
        i = i + 1;
    }
    let mut j: usize = 0;
    proof {
        assert(strs_view(a@).take(a.len() as int) =~= strs_view(a@));
    }
    while j < b.len()
        invariant
            j <= b.len(),
            strs_view(all@) == strs_view(a@) + strs_view(b@).take(j as int),
        decreases b.len() - j,
    {
        let ghost before = strs_view(all@);
        all.push(b[j].clone());
        proof {
            assert(strs_view(all@) =~= before.push(b@[j as int]@));
            assert(strs_view(b@).take(j + 1) =~= strs_view(b@).take(j as int).push(b@[j as int]@));
        }
        j = j + 1;
    }
    let sorted = sort_strings(&all);
    let uniq = dedup_sorted(&sorted);
    proof {
        let av = strs_view(a@);
        let bv = strs_view(b@);
        assert(bv.take(b.len() as int) =~= bv);
        let cv = strs_view(all@);
        assert forall|x: Seq<char>| strs_view(sorted@).to_set().contains(x) <==> cv.to_set().contains(x) by {
            if strs_view(sorted@).contains(x) {
                assert(strs_view(sorted@).to_multiset().count(x) > 0);
            }
            if cv.contains(x) {
                assert(cv.to_multiset().count(x) > 0);
            }
        }
        assert(strs_view(sorted@).to_set() =~= cv.to_set());
        assert forall|x: Seq<char>| cv.to_set().contains(x) <==> (av.to_set() + bv.to_set()).contains(x) by {
            if cv.contains(x) {
                let k = choose|k: int| 0 <= k < cv.len() && cv[k] == x;
                if k < av.len() {
                    assert(av[k] == x);
                } else {
                    assert(bv[k - av.len()] == x);
                }
            }
            if av.contains(x) {
                let k = choose|k: int| 0 <= k < av.len() && av[k] == x;
                assert(cv[k] == x);
            }
            if bv.contains(x) {
                let k = choose|k: int| 0 <= k < bv.len() && bv[k] == x;
                assert(cv[av.len() + k] == x);
            }
        }
        assert(cv.to_set() =~= av.to_set() + bv.to_set());
    }
    uniq
}

/// How the changes of two dimensions from their common base overlap: the
/// paths both changed and those only one changed (each sorted as paths, by
/// component), and how many paths both changed and either changed.
pub struct FileOverlap {
    pub shared_modified_files: Vec<String>,
    pub disjoint_modified_files: Vec<String>,
    pub shared_count: usize,
    pub union_count: usize,
}

/// The paths changed by both dimensions.
pub open spec fn shared_set(base: Seq<FileContent>, f1: Seq<FileContent>, f2: Seq<FileContent>) -> Set<Seq<char>> {
    modified_set(base, f1).intersect(modified_set(base, f2))
}

/// The paths changed by exactly one of the dimensions.
pub open spec fn disjoint_set(base: Seq<FileContent>, f1: Seq<FileContent>, f2: Seq<FileContent>) -> Set<Seq<char>> {
    modified_set(base, f1).difference(modified_set(base, f2)) + modified_set(base, f2).difference(
        modified_set(base, f1),
    )
}

/// The paths changed by either dimension.
pub open spec fn union_set(base: Seq<FileContent>, f1: Seq<FileContent>, f2: Seq<FileContent>) -> Set<Seq<char>> {
    modified_set(base, f1) + modified_set(base, f2)
}

/// How the changes of two dimensions from the base overlap.
pub fn file_overlap(base: &Vec<FileContent>, files1: &Vec<FileContent>, files2: &Vec<FileContent>) -> (r: FileOverlap)
    requires
        distinct_paths(base@),
        distinct_paths(files1@),
        distinct_paths(files2@),
    ensures
        strs_view(r.shared_modified_files@) == path_sorted(in_order(shared_set(base@, files1@, files2@))),
        strs_view(r.disjoint_modified_files@) == path_sorted(in_order(disjoint_set(base@, files1@, files2@))),
        paths_ordered(strs_view(r.shared_modified_files@)),
        paths_ordered(strs_view(r.disjoint_modified_files@)),
        strs_view(r.shared_modified_files@).to_set() == shared_set(base@, files1@, files2@),
        strs_view(r.disjoint_modified_files@).to_set() == disjoint_set(base@, files1@, files2@),
        r.shared_count == in_order(shared_set(base@, files1@, files2@)).len(),
        r.union_count == in_order(union_set(base@, files1@, files2@)).len(),
{
    let m1 = modified_paths(base, files1);
    let m2 = modified_paths(base, files2);
    let ghost s1 = modified_set(base@, files1@);
    let ghost s2 = modified_set(base@, files2@);
    let both = filter_by(&m1, &m2, true);
    let only1 = filter_by(&m1, &m2, false);
    let only2 = filter_by(&m2, &m1, false);
    let either = merged_members(&m1, &m2);
    let one_side = merged_members(&only1, &only2);
    proof {
        let v1 = strs_view(m1@);
        let v2 = strs_view(m2@);
        assert(strs_view(both@).to_set() =~= shared_set(base@, files1@, files2@));
        assert(strs_view(one_side@).to_set() =~= disjoint_set(base@, files1@, files2@));
        assert(strs_view(either@).to_set() =~= union_set(base@, files1@, files2@));
        lemma_in_order_is(strs_view(both@));
        lemma_in_order_is(strs_view(one_side@));
        lemma_in_order_is(strs_view(either@));
    }
    let shared_count = both.len();
    let union_count = either.len();
    let ghost bv = strs_view(both@);
    let ghost ov = strs_view(one_side@);
    let shared_sorted = sort_paths(both);
    let disjoint_sorted = sort_paths(one_side);
    proof {
        let sv = strs_view(shared_sorted@);
        let dv = strs_view(disjoint_sorted@);
        sv.to_multiset_ensures();
        bv.to_multiset_ensures();
        dv.to_multiset_ensures();
        ov.to_multiset_ensures();
        assert forall|x: Seq<char>| sv.to_set().contains(x) == bv.to_set().contains(x) by {
            assert(sv.contains(x) == (sv.to_multiset().count(x) > 0));
        }
        assert forall|x: Seq<char>| dv.to_set().contains(x) == ov.to_set().contains(x) by {
            assert(dv.contains(x) == (dv.to_multiset().count(x) > 0));
        }
        assert(sv.to_set() =~= bv.to_set());
        assert(dv.to_set() =~= ov.to_set());
    }
    FileOverlap {
        shared_modified_files: shared_sorted,
        disjoint_modified_files: disjoint_sorted,
        shared_count,
        union_count,
    }
}

/// The lines on either side of the conflicts, summed over the conflicts.
pub open spec fn conflict_lines(hunks: Seq<ConflictHunk>) -> nat
    decreases hunks.len(),
{
    if hunks.len() == 0 {
        0
    } else {
        conflict_lines(hunks.drop_last()) + hunks.last().ours_lines@.len() + hunks.last().theirs_lines@.len()
    }
}

/// The lines on either side of the predicted conflicts.
pub fn conflict_line_total(hunks: &Vec<ConflictHunk>) -> (r: usize)
    requires
        conflict_lines(hunks@) <= usize::MAX,
    ensures
        r == conflict_lines(hunks@),
{
    let mut total: usize = 0;
    let mut i: usize = 0;
    while i < hunks.len()
        invariant
            i <= hunks.len(),
            conflict_lines(hunks@) <= usize::MAX,
            total == conflict_lines(hunks@.take(i as int)),
        decreases hunks.len() - i,
    {
        proof {
            assert(hunks@.take(i + 1).drop_last() =~= hunks@.take(i as int));
            lemma_conflict_lines_prefix(hunks@, i + 1);
        }
        total = total + hunks[i].ours_lines.len() + hunks[i].theirs_lines.len();
        i = i + 1;
    }
    proof {
        assert(hunks@.take(hunks.len() as int) =~= hunks@);
    }
    total
}

/// The lines of a prefix of the conflicts are no more than those of all.
proof fn lemma_conflict_lines_prefix(hunks: Seq<ConflictHunk>, n: int)
    requires
        0 <= n <= hunks.len(),
    ensures
        conflict_lines(hunks.take(n)) <= conflict_lines(hunks),
    decreases hunks.len(),
{
    if n < hunks.len() {
        assert(hunks.drop_last().take(n) =~= hunks.take(n));
        lemma_conflict_lines_prefix(hunks.drop_last(), n);
    } else {
        assert(hunks.take(n) =~= hunks);
    }
}

/// The place of `x` in a walk of commits, or the walk's length when it is
/// not there.
pub open spec fn walk_position(walk: Seq<Seq<char>>, x: Seq<char>, k: int) -> int
    decreases walk.len() - k,
{
    if k < 0 || k >= walk.len() {
        walk.len() as int
    } else if walk[k] == x {
        k
    } else {
        walk_position(walk, x, k + 1)
    }
}

/// The commits from `head` back to `base`: none when they are the same;
/// otherwise the place of `base` in the walk of commits from `head` (the
/// walk's length when `base` is not in it), or none when the walk failed.
pub fn commit_distance(walk: &Option<Vec<String>>, base: &str, head: &str) -> (r: usize)
    ensures
        base@ == head@ ==> r == 0,
        base@ != head@ ==> r == match walk {
            Some(w) => walk_position(strs_view(w@), base@, 0),
            None => 0,
        },
{
    if str_eq(base, head) {
        return 0;
    }
    match walk {
        Some(w) => {
            let ghost wv = strs_view(w@);
            let mut k: usize = 0;
            while k < w.len()
                invariant
                    k <= w.len(),
                    wv == strs_view(w@),
                    base@ != head@,
                    match walk {
                        Some(x) => strs_view(x@) == wv,
                        None => false,
                    },
                    walk_position(wv, base@, 0) == walk_position(wv, base@, k as int),
                decreases w.len() - k,
            {
                assert(wv[k as int] == w@[k as int]@);
                if str_eq(w[k].as_str(), base) {
                    return k;
                }
                k = k + 1;
            }
            w.len()
        },
        None => 0,
    }
}

/// Whether two lists of files (in path order) are the same.
pub open spec fn same_files(a: Seq<FileContent>, b: Seq<FileContent>) -> bool {
    &&& a.len() == b.len()
    &&& forall|k: int| 0 <= k < a.len() ==> (#[trigger] a[k]).path@ == b[k].path@ && a[k].data@ == b[k].data@
}

/// Whether two dimensions stand at the same commit with the same files.
pub fn same_state(head1: &Option<String>, head2: &Option<String>, files1: &Vec<FileContent>, files2: &Vec<FileContent>) -> (r: bool)
    ensures
        r == (opt_view(*head1) == opt_view(*head2) && same_files(files1@, files2@)),
{
    if !opt_eq(head1, head2) {
        return false;
    }
    if files1.len() != files2.len() {
        return false;
    }
    let mut k: usize = 0;
    while k < files1.len()
        invariant
            k <= files1.len(),
            files1.len() == files2.len(),
            forall|j: int| 0 <= j < k ==> (#[trigger] files1@[j]).path@ == files2@[j].path@ && files1@[j].data@ == files2@[j].data@,
        decreases files1.len() - k,
    {
        if !str_eq(files1[k].path.as_str(), files2[k].path.as_str()) || !bytes_eq(&files1[k].data, &files2[k].data) {
            return false;
        }
        k = k + 1;
    }
    true
}

/// The overlap of two dimensions does not depend on which comes first.
pub proof fn lemma_overlap_symmetric(base: Seq<FileContent>, f1: Seq<FileContent>, f2: Seq<FileContent>)
    ensures
        shared_set(base, f1, f2) == shared_set(base, f2, f1),
        disjoint_set(base, f1, f2) == disjoint_set(base, f2, f1),
        union_set(base, f1, f2) == union_set(base, f2, f1),
{
    assert(shared_set(base, f1, f2) =~= shared_set(base, f2, f1));
    assert(disjoint_set(base, f1, f2) =~= disjoint_set(base, f2, f1));
    assert(union_set(base, f1, f2) =~= union_set(base, f2, f1));
}

/// Two dimensions with the same files changed the same paths, so no path is
/// changed by only one of them.
pub proof fn lemma_same_files_no_disjoint(base: Seq<FileContent>, f1: Seq<FileContent>, f2: Seq<FileContent>)
    requires
        distinct_paths(f1),
        distinct_paths(f2),
        same_files(f1, f2),
    ensures
        modified_set(base, f1) == modified_set(base, f2),
        disjoint_set(base, f1, f2).is_empty(),
{
    assert forall|p: Seq<char>| holds(f1, p) == holds(f2, p) by {
        if holds(f1, p) {
            let k = choose|k: int| 0 <= k < f1.len() && (#[trigger] f1[k]).path@ == p;
            assert(f2[k].path@ == p);
        }
        if holds(f2, p) {
            let k = choose|k: int| 0 <= k < f2.len() && (#[trigger] f2[k]).path@ == p;
            assert(f1[k].path@ == p);
        }
    }
    assert forall|p: Seq<char>| holds(f1, p) implies data_at(f1, p) == data_at(f2, p) by {
        let a = choose|k: int| 0 <= k < f1.len() && (#[trigger] f1[k]).path@ == p;
        let b = choose|k: int| 0 <= k < f2.len() && (#[trigger] f2[k]).path@ == p;
        assert(f2[a].path@ == p);
        if a != b {
            if a < b {
                assert(f2[a].path@ != f2[b].path@);
            } else {
                assert(f2[b].path@ != f2[a].path@);
            }
        }
    }
    assert(modified_set(base, f1) =~= modified_set(base, f2));
    assert(disjoint_set(base, f1, f2) =~= Set::<Seq<char>>::empty());
}

} // verus!
