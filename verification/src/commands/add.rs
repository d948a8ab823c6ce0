//! Staging: which paths a hard fence bars.
use vstd::prelude::*;
use crate::territory::fence::{fence_bars, Fence, FenceView};
use crate::territory::glob::{glob_matches, matches_glob, strip_dot_slash, strip_dot_slash_chars};
use crate::territory::{fence_views, fences_in_force, TerritoryManager};
use crate::text::{chars_of, opt_str_view, opt_view, replace_all, replace_char, string_of, strs_view};

verus! {

/// A staged path as the fence check sees it: leading `./` pieces removed,
/// then backslashes turned into forward slashes.
pub open spec fn staged_form(p: Seq<char>) -> Seq<char> {
    replace_char(strip_dot_slash(p), '\\', "/"@)
}

/// Whether a hard fence among `fences` bars `path`: for a change made in a
/// dimension, a hard fence that bars that dimension on the path; with no
/// dimension, any hard fence whose glob matches the path.
pub open spec fn hard_fence_on(fences: Seq<FenceView>, path: Seq<char>, dim: Option<Seq<char>>) -> bool {
    exists|k: int|
        0 <= k < fences.len() && (#[trigger] fences[k]).hard && match dim {
            Some(d) => fence_bars(fences[k], path, d),
            None => glob_matches(fences[k].path_glob, path),
        }
}

fn staged_path(rel_path: &str) -> (r: String)
    ensures
        r@ == staged_form(rel_path@),
{
    let v = chars_of(rel_path);
    let stripped = string_of(&strip_dot_slash_chars(&v));
    replace_all(stripped.as_str(), '\\', "/")
}

/// Whether one of the given fences, all taken as in force, bars the staged
/// path `rel_path`.
pub fn fenced_among(fences: &Vec<Fence>, rel_path: &str, current_dim: Option<&str>) -> (r: bool)
    ensures
        r == hard_fence_on(fence_views(fences@), staged_form(rel_path@), opt_str_view(current_dim)),
{
    let ghost fv = fence_views(fences@);
    let norm = staged_path(rel_path);
    let ghost dim = opt_str_view(current_dim);
    let mut i: usize = 0;
    while i < fences.len()
        invariant
            i <= fences.len(),
            fv == fence_views(fences@),
            dim == opt_str_view(current_dim),
            norm@ == staged_form(rel_path@),
            forall|k: int|
                0 <= k < i ==> !((#[trigger] fv[k]).hard && match dim {
                    Some(d) => fence_bars(fv[k], norm@, d),
                    None => glob_matches(fv[k].path_glob, norm@),
                }),
        decreases fences.len() - i,
    {
        let f = &fences[i];
        assert(fv[i as int] == f@);
        if f.hard {
            let hit = match current_dim {
                Some(d) => f.is_violated_by(norm.as_str(), d),
                None => matches_glob(f.path_glob.as_str(), norm.as_str()),
            };
            if hit {
                return true;
            }
        }
        i = i + 1;
    }
    false
}

/// Whether staging `rel_path` is barred by a hard fence in force now, by
/// the system clock, among the fences stored under `dft_dir`.
pub fn is_path_fenced(dft_dir: &str, stored: &Vec<Fence>, rel_path: &str, current_dim: Option<&str>) -> (r: bool)
    ensures
        exists|now: crate::clock::UtcTime|
            r == hard_fence_on(
                #[trigger] fences_in_force(fence_views(stored@), now),
                staged_form(rel_path@),
                opt_str_view(current_dim),
            ),
{
    let territory = TerritoryManager::new(dft_dir);
    let fences = territory.list_fences(stored);
    fenced_among(&fences, rel_path, current_dim)
}

/// Whether a file is to be checked against the fences when everything is
/// staged: a file the index does not hold, one whose size (cut to 32 bits,
/// as the index keeps it) or content differs from its entry, and one whose
/// metadata or content could not be read.
pub open spec fn staging_candidate(
    indexed: Option<(u32, Seq<char>)>,
    disk_len: Option<u64>,
    content_oid: Option<Seq<char>>,
) -> bool {
    match indexed {
        None => true,
        Some((size, oid)) => match disk_len {
            None => true,
            Some(n) => if n as u32 != size {
                true
            } else {
                match content_oid {
                    Some(o) => o != oid,
                    None => true,
                }
            },
        },
    }
}

/// Whether a file is to be checked against the fences; see
/// `staging_candidate`.
pub fn is_staging_candidate(indexed: &Option<(u32, String)>, disk_len: Option<u64>, content_oid: &Option<String>) -> (r: bool)
    ensures
        r == staging_candidate(
            match indexed {
                Some((s, o)) => Some((*s, o@)),
                None => None,
            },
            disk_len,
            opt_view(*content_oid),
        ),
{
    match indexed {
        None => true,
        Some((size, oid)) => match disk_len {
            None => true,
            Some(n) => {
                #[verifier::truncate]
                let cut = n as u32;
                if cut != *size {
                    true
                } else {
                    match content_oid {
                        Some(o) => !crate::text::str_eq(o.as_str(), oid.as_str()),
                        None => true,
                    }
                }
            },
        },
    }
}

/// The index of the first candidate that a hard fence bars for `dim`, if
/// any, from `k` on.
pub open spec fn first_barred(fences: Seq<FenceView>, cands: Seq<Seq<char>>, dim: Seq<char>, k: int) -> Option<int>
    decreases cands.len() - k,
{
    if k < 0 || k >= cands.len() {
        None
    } else if hard_fence_on(fences, staged_form(cands[k]), Some(dim)) {
        Some(k)
    } else {
        first_barred(fences, cands, dim, k + 1)
    }
}

/// The first staged path, in the staged form, that a hard fence bars for
/// the dimension, if any.
pub fn first_fence_violation(fences: &Vec<Fence>, candidates: &Vec<String>, dim: &str) -> (r: Option<String>)
    ensures
        match first_barred(fence_views(fences@), strs_view(candidates@), dim@, 0) {
            Some(k) => r matches Some(p) && p@ == staged_form(strs_view(candidates@)[k]),
            None => r is None,
        },
{
    let ghost cv = strs_view(candidates@);
    let mut i: usize = 0;
    while i < candidates.len()
        invariant
            i <= candidates.len(),
            cv == strs_view(candidates@),
            first_barred(fence_views(fences@), cv, dim@, 0) == first_barred(fence_views(fences@), cv, dim@, i as int),
        decreases candidates.len() - i,
    {
        assert(cv[i as int] == candidates@[i as int]@);
        if fenced_among(fences, candidates[i].as_str(), Some(dim)) {
            return Some(staged_path(candidates[i].as_str()));
        }
        i = i + 1;
    }
    None
}

} // verus!
