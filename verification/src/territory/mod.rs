//! Territory governance: claims on paths, fences against writes, and the
//! decisions the territory manager takes on them.
pub mod audit;
pub mod claim;
pub mod error;
pub mod fence;
pub mod glob;
pub mod lock;
pub mod meet;
pub mod store;

use vstd::prelude::*;
use crate::clock::{utc_now, UtcTime};
use crate::select::{lemma_select_take_step, select};
use crate::territory::claim::{in_force, Claim, ClaimView};
use crate::territory::error::AwarenessError;
use crate::territory::fence::{fence_bars, Fence, FenceView};
use crate::territory::glob::{glob_matches, globs_overlap, matches_glob, normalized, patterns_overlap};
use crate::territory::store::TerritoryStore;
use crate::text::{
    chars_of, debug_opt_string, debug_text, join2, join3, opt_eq_str, opt_str_view, opt_view,
    path_join, path_joined, str_eq, string_of,
};

verus! {

/// The contents of a list of claims.
pub open spec fn claim_views(v: Seq<Claim>) -> Seq<ClaimView> {
    v.map_values(|c: Claim| c@)
}

/// The contents of a list of fences.
pub open spec fn fence_views(v: Seq<Fence>) -> Seq<FenceView> {
    v.map_values(|f: Fence| f@)
}

/// The claims in force at `now`, in their order.
pub open spec fn claims_in_force(claims: Seq<ClaimView>, now: UtcTime) -> Seq<ClaimView> {
    select(claims, |c: ClaimView| in_force(c.expires_at, now))
}

/// The fences in force at `now`, in their order.
pub open spec fn fences_in_force(fences: Seq<FenceView>, now: UtcTime) -> Seq<FenceView> {
    select(fences, |f: FenceView| in_force(f.expires_at, now))
}

/// Whether an existing claim stops `candidate` from being made at `now`: it is
/// in force, is not the same holder's claim on the same glob (which is a
/// renewal), overlaps the candidate's glob, and one of the two is exclusive.
pub open spec fn claim_blocks(existing: ClaimView, candidate: ClaimView, now: UtcTime) -> bool {
    &&& in_force(existing.expires_at, now)
    &&& !(existing.dimension == candidate.dimension && existing.agent_id == candidate.agent_id
        && existing.path_glob == candidate.path_glob)
    &&& globs_overlap(existing.path_glob, candidate.path_glob)
    &&& (candidate.exclusive || existing.exclusive)
}

/// The position of the first claim from `start` on that blocks `candidate`, or -1.
pub open spec fn first_blocker(
    claims: Seq<ClaimView>,
    candidate: ClaimView,
    now: UtcTime,
    start: int,
) -> int
    decreases claims.len() - start,
{
    if start < 0 || start >= claims.len() {
        -1
    } else if claim_blocks(claims[start], candidate, now) {
        start
    } else {
        first_blocker(claims, candidate, now, start + 1)
    }
}

/// The message that refuses a claim on `path` because of `existing`.
pub open spec fn conflict_message(path: Seq<char>, existing: ClaimView) -> Seq<char> {
    "Path '"@ + path + "' conflicts with active claim '"@ + existing.id
        + "' held by dimension '"@ + existing.dimension + "' (agent: "@ + debug_text(
        existing.agent_id,
    ) + ")"@
}

/// Whether yielding `path` (for the given agent and dimension, when given)
/// releases the claim.
pub open spec fn yield_path_releases(
    c: ClaimView,
    path: Seq<char>,
    agent_id: Option<Seq<char>>,
    dimension: Option<Seq<char>>,
) -> bool {
    &&& (c.path_glob == path || glob_matches(c.path_glob, path) || glob_matches(path, c.path_glob))
    &&& (agent_id matches Some(a) ==> c.agent_id == Some(a))
    &&& (dimension matches Some(d) ==> c.dimension == d)
}

/// Whether yielding everything an agent holds (in a dimension, when given)
/// releases the claim.
pub open spec fn yield_agent_releases(
    c: ClaimView,
    agent_id: Seq<char>,
    dimension: Option<Seq<char>>,
) -> bool {
    &&& c.agent_id == Some(agent_id)
    &&& (dimension matches Some(d) ==> c.dimension == d)
}

/// The position of the first fence on exactly `path`, or -1.
pub open spec fn first_fence_on(fences: Seq<FenceView>, path: Seq<char>, start: int) -> int
    decreases fences.len() - start,
{
    if start < 0 || start >= fences.len() {
        -1
    } else if fences[start].path_glob == path {
        start
    } else {
        first_fence_on(fences, path, start + 1)
    }
}

/// Whether some fence in force at `now` is hard and bars a change to `path` in
/// `dimension`.
pub open spec fn hard_fenced(
    fences: Seq<FenceView>,
    now: UtcTime,
    dimension: Seq<char>,
    path: Seq<char>,
) -> bool {
    exists|k: int|
        0 <= k < fences.len() && in_force((#[trigger] fences[k]).expires_at, now) && fences[k].hard
            && fence_bars(fences[k], path, dimension)
}

/// The position of the first path from `start` on that a hard fence bars, or -1.
pub open spec fn first_fenced_path(
    fences: Seq<FenceView>,
    now: UtcTime,
    dimension: Seq<char>,
    paths: Seq<Seq<char>>,
    start: int,
) -> int
    decreases paths.len() - start,
{
    if start < 0 || start >= paths.len() {
        -1
    } else if hard_fenced(fences, now, dimension, normalized(paths[start])) {
        start
    } else {
        first_fenced_path(fences, now, dimension, paths, start + 1)
    }
}

/// The message that refuses staging or committing a fenced path.
pub open spec fn fence_block_message(path: Seq<char>) -> Seq<char> {
    "Operation blocked by territory fence: FENCE on '"@ + path + "'"@
}

/// The territory of one repository.
pub struct TerritoryManager {
    dft_dir: String,
    store: TerritoryStore,
}

impl TerritoryManager {
    pub closed spec fn spec_dft_dir(&self) -> Seq<char> {
        self.dft_dir@
    }

    pub closed spec fn spec_store(&self) -> &TerritoryStore {
        &self.store
    }

    /// The manager for the repository whose metadata lives in `dft_dir`; its
    /// store is the `territory` directory there.
    pub fn new(dft_dir: &str) -> (r: Self)
        ensures
            r.spec_dft_dir() == dft_dir@,
            r.spec_store().spec_territory_dir() == path_joined(dft_dir@, "territory"@),
    {
        let territory_dir = path_join(dft_dir, "territory");
        TerritoryManager {
            dft_dir: String::from_str(dft_dir),
            store: TerritoryStore::new(territory_dir.as_str()),
        }
    }

    pub fn store(&self) -> (r: &TerritoryStore)
        ensures
            r == self.spec_store(),
    {
        &self.store
    }

    pub fn dft_dir(&self) -> (r: &str)
        ensures
            r@ == self.spec_dft_dir(),
    {
        self.dft_dir.as_str()
    }

    /// Decides whether `candidate` may be made next to the existing claims at
    /// `now`: it is refused with a territory conflict naming the first
    /// existing claim that blocks it, and returned otherwise.
    pub fn claim(&self, existing: &Vec<Claim>, candidate: Claim, now: UtcTime) -> (r: Result<
        Claim,
        AwarenessError,
    >)
        ensures
            ({
                let b = first_blocker(claim_views(existing@), candidate@, now, 0);
                if b >= 0 {
                    r matches Err(AwarenessError::TerritoryConflict(m)) && m@ == conflict_message(
                        candidate@.path_glob,
                        claim_views(existing@)[b],
                    )
                } else {
                    r matches Ok(c) && c@ == candidate@
                }
            }),
            r is Err == (exists|i: int|
                0 <= i < existing@.len() && stands_against((#[trigger] existing@[i])@, candidate@, now)),
            candidate.exclusive ==> forall|i: int|
                0 <= i < existing@.len() && in_force((#[trigger] existing@[i])@.expires_at, now)
                    && globs_overlap(existing@[i]@.path_glob, candidate@.path_glob) && (existing@[i]@.dimension
                    != candidate@.dimension || existing@[i]@.agent_id != candidate@.agent_id) ==> r is Err,
    {
        let ghost views = claim_views(existing@);
        let mut i: usize = 0;
        while i < existing.len()
            invariant
                i <= existing.len(),
                views == claim_views(existing@),
                forall|j: int| 0 <= j < i ==> !#[trigger] claim_blocks(views[j], candidate@, now),
            decreases existing.len() - i,
        {
            let e = &existing[i];
            assert(views[i as int] == e@);
            if e.is_active(now) {
                let renewal = str_eq(e.dimension.as_str(), candidate.dimension.as_str())
                    && opt_eq_str(&e.agent_id, as_opt_str(&candidate.agent_id))
                    && str_eq(e.path_glob.as_str(), candidate.path_glob.as_str());
                if !renewal {
                    if patterns_overlap(e.path_glob.as_str(), candidate.path_glob.as_str()) {
                        if candidate.exclusive || e.exclusive {
                            proof {
                                lemma_first_blocker_is(views, candidate@, now, i as int);
                                lemma_claim_refused_iff(views, candidate@, now);
                                assert(views[i as int] == existing@[i as int]@);
                                assert(stands_against(existing@[i as int]@, candidate@, now));
                            }
                            let agent = debug_opt_string(&e.agent_id);
                            let m1 = join3("Path '", candidate.path_glob.as_str(), "' conflicts with active claim '");
                            let m2 = join3(m1.as_str(), e.id.as_str(), "' held by dimension '");
                            let m3 = join3(m2.as_str(), e.dimension.as_str(), "' (agent: ");
                            let m4 = join3(m3.as_str(), agent.as_str(), ")");
                            return Err(AwarenessError::TerritoryConflict(m4));
                        }
                    }
                }
            }
            i = i + 1;
        }
        proof {
            lemma_no_blocker(views, candidate@, now);
            lemma_claim_refused_iff(views, candidate@, now);
            assert forall|j: int| 0 <= j < existing@.len() implies views[j] == (#[trigger] existing@[j])@ by {}
        }
        Ok(candidate)
    }

    /// The claims that yielding `path_glob` releases: those on the same glob,
    /// or whose glob matches it or is matched by it, held by `agent_id` and in
    /// `dimension` when these are given; in their order.
    pub fn yield_path(
        &self,
        claims: &Vec<Claim>,
        path_glob: &str,
        agent_id: Option<&str>,
        dimension: Option<&str>,
    ) -> (r: Vec<Claim>)
        ensures
            claim_views(r@) == select(
                claim_views(claims@),
                |c: ClaimView|
                    yield_path_releases(c, path_glob@, opt_str_view(agent_id), opt_str_view(dimension)),
            ),
    {
        let ghost p = |c: ClaimView|
            yield_path_releases(c, path_glob@, opt_str_view(agent_id), opt_str_view(dimension));
        let ghost views = claim_views(claims@);
        let mut released: Vec<Claim> = Vec::new();
        let mut i: usize = 0;
        while i < claims.len()
            invariant
                i <= claims.len(),
                views == claim_views(claims@),
                p == (|c: ClaimView|
                    yield_path_releases(c, path_glob@, opt_str_view(agent_id), opt_str_view(dimension))),
                claim_views(released@) == select(views.take(i as int), p),
            decreases claims.len() - i,
        {
            let c = &claims[i];
            proof {
                lemma_select_take_step(views, i as int, p);
                assert(views[i as int] == c@);
            }
            let matches_path = str_eq(c.path_glob.as_str(), path_glob) || matches_glob(
                c.path_glob.as_str(),
                path_glob,
            ) || matches_glob(path_glob, c.path_glob.as_str());
            let agent_ok = match agent_id {
                Some(ag) => match &c.agent_id {
                    Some(own) => str_eq(own.as_str(), ag),
                    None => false,
                },
                None => true,
            };
            let dim_ok = match dimension {
                Some(dim) => str_eq(c.dimension.as_str(), dim),
                None => true,
            };
            if matches_path && agent_ok && dim_ok {
                released.push(c.duplicate());
                proof {
                    assert(claim_views(released@) =~= select(views.take(i as int), p).push(c@));
                }
            }
            i = i + 1;
        }
        proof {
            assert(views.take(claims.len() as int) =~= views);
        }
        released
    }

    /// The claims that yielding everything `agent_id` holds releases (only
    /// those in `dimension`, when given); in their order.
    pub fn yield_agent(&self, claims: &Vec<Claim>, agent_id: &str, dimension: Option<&str>) -> (r:
        Vec<Claim>)
        ensures
            claim_views(r@) == select(
                claim_views(claims@),
                |c: ClaimView| yield_agent_releases(c, agent_id@, opt_str_view(dimension)),
            ),
    {
        let ghost p = |c: ClaimView| yield_agent_releases(c, agent_id@, opt_str_view(dimension));
        let ghost views = claim_views(claims@);
        let mut released: Vec<Claim> = Vec::new();
        let mut i: usize = 0;
        while i < claims.len()
            invariant
                i <= claims.len(),
                views == claim_views(claims@),
                p == (|c: ClaimView| yield_agent_releases(c, agent_id@, opt_str_view(dimension))),
                claim_views(released@) == select(views.take(i as int), p),
            decreases claims.len() - i,
        {
            let c = &claims[i];
            proof {
                lemma_select_take_step(views, i as int, p);
                assert(views[i as int] == c@);
            }
            let agent_ok = match &c.agent_id {
                Some(own) => str_eq(own.as_str(), agent_id),
                None => false,
            };
            let dim_ok = match dimension {
                Some(dim) => str_eq(c.dimension.as_str(), dim),
                None => true,
            };
            if agent_ok && dim_ok {
                released.push(c.duplicate());
                proof {
                    assert(claim_views(released@) =~= select(views.take(i as int), p).push(c@));
                }
            }
            i = i + 1;
        }
        proof {
            assert(views.take(claims.len() as int) =~= views);
        }
        released
    }

    /// The first fence on exactly `path_glob`, which unfencing removes.
    pub fn unfence(&self, fences: &Vec<Fence>, path_glob: &str) -> (r: Option<Fence>)
        ensures
            ({
                let k = first_fence_on(fence_views(fences@), path_glob@, 0);
                if k >= 0 {
                    r matches Some(f) && f@ == fence_views(fences@)[k]
                } else {
                    r is None
                }
            }),
    {
        let ghost views = fence_views(fences@);
        let mut i: usize = 0;
        while i < fences.len()
            invariant
                i <= fences.len(),
                views == fence_views(fences@),
                first_fence_on(views, path_glob@, 0) == first_fence_on(views, path_glob@, i as int),
            decreases fences.len() - i,
        {
            assert(views[i as int] == fences[i as int]@);
            if str_eq(fences[i].path_glob.as_str(), path_glob) {
                return Some(fences[i].duplicate());
            }
            i = i + 1;
        }
        None
    }

    /// The claims in force at `now`, in their order.
    pub fn claims_active_at(&self, claims: &Vec<Claim>, now: UtcTime) -> (r: Vec<Claim>)
        ensures
            claim_views(r@) == select(
                claim_views(claims@),
                |c: ClaimView| in_force(c.expires_at, now),
            ),
    {
        active_claims(claims, now)
    }

    /// The fences in force at `now`, in their order.
    pub fn fences_active_at(&self, fences: &Vec<Fence>, now: UtcTime) -> (r: Vec<Fence>)
        ensures
            fence_views(r@) == select(
                fence_views(fences@),
                |f: FenceView| in_force(f.expires_at, now),
            ),
    {
        active_fences(fences, now)
    }

    /// The claims in force now, by the system clock.
    pub fn list_claims(&self, claims: &Vec<Claim>) -> (r: Vec<Claim>)
        ensures
            exists|now: UtcTime| claim_views(r@) == #[trigger] claims_in_force(claim_views(claims@), now),
    {
        let now = utc_now();
        let r = active_claims(claims, now);
        assert(claim_views(r@) == claims_in_force(claim_views(claims@), now));
        r
    }

    /// The fences in force now, by the system clock.
    pub fn list_fences(&self, fences: &Vec<Fence>) -> (r: Vec<Fence>)
        ensures
            exists|now: UtcTime| fence_views(r@) == #[trigger] fences_in_force(fence_views(fences@), now),
    {
        let now = utc_now();
        let r = active_fences(fences, now);
        assert(fence_views(r@) == fences_in_force(fence_views(fences@), now));
        r
    }

    /// Checks whether staging the given paths in `dimension` is allowed at
    /// `now`: each path is normalized, and the first one that a hard fence in
    /// force bars is refused.
    pub fn check_stage_allowed(
        &self,
        fences: &Vec<Fence>,
        now: UtcTime,
        dimension: &str,
        paths: &Vec<String>,
    ) -> (r: Result<(), AwarenessError>)
        ensures
            ({
                let ps = paths@.map_values(|p: String| p@);
                let k = first_fenced_path(fence_views(fences@), now, dimension@, ps, 0);
                if k >= 0 {
                    r matches Err(AwarenessError::General(m)) && m@ == fence_block_message(
                        normalized(ps[k]),
                    )
                } else {
                    r is Ok
                }
            }),
    {
        let ghost fv = fence_views(fences@);
        let ghost ps = paths@.map_values(|p: String| p@);
        let active = active_fences(fences, now);
        let mut i: usize = 0;
        while i < paths.len()
            invariant
                i <= paths.len(),
                fv == fence_views(fences@),
                ps == paths@.map_values(|p: String| p@),
                fence_views(active@) == fences_in_force(fv, now),
                first_fenced_path(fv, now, dimension@, ps, 0) == first_fenced_path(
                    fv,
                    now,
                    dimension@,
                    ps,
                    i as int,
                ),
            decreases paths.len() - i,
        {
            let norm_chars = crate::territory::glob::normalize_glob(paths[i].as_str());
            assert(ps[i as int] == paths@[i as int]@);
            let blocked = hard_fence_bars(&active, norm_chars.as_str(), dimension);
            proof {
                lemma_active_hard_fenced(fv, now, dimension@, norm_chars@);
            }
            proof {
                assert(norm_chars@ == normalized(ps[i as int]));
                if blocked {
                    assert(first_fenced_path(fv, now, dimension@, ps, i as int) == i);
                } else {
                    assert(first_fenced_path(fv, now, dimension@, ps, i as int) == first_fenced_path(
                        fv,
                        now,
                        dimension@,
                        ps,
                        i + 1,
                    ));
                }
            }
            if blocked {
                let m = join3(
                    "Operation blocked by territory fence: FENCE on '",
                    norm_chars.as_str(),
                    "'",
                );
                return Err(AwarenessError::General(m));
            }
            i = i + 1;
        }
        Ok(())
    }

    /// Checks whether committing the given staged paths in `dimension` is
    /// allowed at `now`; the same rule as for staging.
    pub fn check_commit_allowed(
        &self,
        fences: &Vec<Fence>,
        now: UtcTime,
        dimension: &str,
        paths: &Vec<String>,
    ) -> (r: Result<(), AwarenessError>)
        ensures
            ({
                let ps = paths@.map_values(|p: String| p@);
                let k = first_fenced_path(fence_views(fences@), now, dimension@, ps, 0);
                if k >= 0 {
                    r matches Err(AwarenessError::General(m)) && m@ == fence_block_message(
                        normalized(ps[k]),
                    )
                } else {
                    r is Ok
                }
            }),
    {
        self.check_stage_allowed(fences, now, dimension, paths)
    }
}

/// An optional owned string as an optional slice.
fn as_opt_str(o: &Option<String>) -> (r: Option<&str>)
    ensures
        opt_str_view(r) == opt_view(*o),
{
    match o {
        Some(s) => Some(s.as_str()),
        None => None,
    }
}

/// The claims in force at `now`, in their order.
pub fn active_claims(claims: &Vec<Claim>, now: UtcTime) -> (r: Vec<Claim>)
    ensures
        claim_views(r@) == select(claim_views(claims@), |c: ClaimView| in_force(c.expires_at, now)),
{
    let ghost p = |c: ClaimView| in_force(c.expires_at, now);
    let ghost views = claim_views(claims@);
    let mut out: Vec<Claim> = Vec::new();
    let mut i: usize = 0;
    while i < claims.len()
        invariant
            i <= claims.len(),
            views == claim_views(claims@),
            p == (|c: ClaimView| in_force(c.expires_at, now)),
            claim_views(out@) == select(views.take(i as int), p),
        decreases claims.len() - i,
    {
        proof {
            lemma_select_take_step(views, i as int, p);
            assert(views[i as int] == claims[i as int]@);
        }
        if claims[i].is_active(now) {
            out.push(claims[i].duplicate());
            proof {
                assert(claim_views(out@) =~= select(views.take(i as int), p).push(claims[i as int]@));
            }
        }
        i = i + 1;
    }
    proof {
        assert(views.take(claims.len() as int) =~= views);
    }
    out
}

/// The fences in force at `now`, in their order.
pub fn active_fences(fences: &Vec<Fence>, now: UtcTime) -> (r: Vec<Fence>)
    ensures
        fence_views(r@) == select(fence_views(fences@), |f: FenceView| in_force(f.expires_at, now)),
{
    let ghost p = |f: FenceView| in_force(f.expires_at, now);
    let ghost views = fence_views(fences@);
    let mut out: Vec<Fence> = Vec::new();
    let mut i: usize = 0;
    while i < fences.len()
        invariant
            i <= fences.len(),
            views == fence_views(fences@),
            p == (|f: FenceView| in_force(f.expires_at, now)),
            fence_views(out@) == select(views.take(i as int), p),
        decreases fences.len() - i,
    {
        proof {
            lemma_select_take_step(views, i as int, p);
            assert(views[i as int] == fences[i as int]@);
        }
        if fences[i].is_active(now) {
            out.push(fences[i].duplicate());
            proof {
                assert(fence_views(out@) =~= select(views.take(i as int), p).push(fences[i as int]@));
            }
        }
        i = i + 1;
    }
    proof {
        assert(views.take(fences.len() as int) =~= views);
    }
    out
}

/// Whether some hard fence of the list bars a change to `path` in `dimension`.
fn hard_fence_bars(fences: &Vec<Fence>, path: &str, dimension: &str) -> (r: bool)
    ensures
        r == exists|k: int|
            0 <= k < fence_views(fences@).len() && (#[trigger] fence_views(fences@)[k]).hard
                && fence_bars(fence_views(fences@)[k], path@, dimension@),
{
    let ghost fv = fence_views(fences@);
    let mut i: usize = 0;
    while i < fences.len()
        invariant
            i <= fences.len(),
            fv == fence_views(fences@),
            forall|k: int|
                0 <= k < i ==> !((#[trigger] fv[k]).hard && fence_bars(fv[k], path@, dimension@)),
        decreases fences.len() - i,
    {
        assert(fv[i as int] == fences[i as int]@);
        if fences[i].hard && fences[i].is_violated_by(path, dimension) {
            return true;
        }
        i = i + 1;
    }
    false
}

proof fn lemma_active_hard_fenced(
    fv: Seq<FenceView>,
    now: UtcTime,
    dimension: Seq<char>,
    path: Seq<char>,
)
    ensures
        (exists|k: int|
            0 <= k < fences_in_force(fv, now).len() && (#[trigger] fences_in_force(fv, now)[k]).hard
                && fence_bars(fences_in_force(fv, now)[k], path, dimension)) == hard_fenced(
            fv,
            now,
            dimension,
            path,
        ),
{
    let p = |f: FenceView| in_force(f.expires_at, now);
    let s = select(fv, p);
    crate::select::lemma_select_sound(fv, p);
    if hard_fenced(fv, now, dimension, path) {
        let k = choose|k: int|
            0 <= k < fv.len() && in_force((#[trigger] fv[k]).expires_at, now) && fv[k].hard
                && fence_bars(fv[k], path, dimension);
        crate::select::lemma_select_complete(fv, p, fv[k]);
        let w = choose|w: int| 0 <= w < s.len() && s[w] == fv[k];
        assert(s[w].hard && fence_bars(s[w], path, dimension));
    }
    if exists|k: int| 0 <= k < s.len() && (#[trigger] s[k]).hard && fence_bars(s[k], path, dimension) {
        let k = choose|k: int| 0 <= k < s.len() && (#[trigger] s[k]).hard && fence_bars(s[k], path, dimension);
        assert(p(s[k]));
        assert(fv.contains(s[k]));
        let w = choose|w: int| 0 <= w < fv.len() && fv[w] == s[k];
        assert(in_force(fv[w].expires_at, now) && fv[w].hard && fence_bars(fv[w], path, dimension));
    }
}

proof fn lemma_first_blocker_is(claims: Seq<ClaimView>, candidate: ClaimView, now: UtcTime, i: int)
    requires
        0 <= i < claims.len(),
        claim_blocks(claims[i], candidate, now),
        forall|j: int| 0 <= j < i ==> !#[trigger] claim_blocks(claims[j], candidate, now),
    ensures
        first_blocker(claims, candidate, now, 0) == i,
{
    lemma_first_blocker_scan(claims, candidate, now, 0, i);
}

proof fn lemma_first_blocker_scan(
    claims: Seq<ClaimView>,
    candidate: ClaimView,
    now: UtcTime,
    s: int,
    i: int,
)
    requires
        0 <= s <= i < claims.len(),
        claim_blocks(claims[i], candidate, now),
        forall|j: int| s <= j < i ==> !#[trigger] claim_blocks(claims[j], candidate, now),
    ensures
        first_blocker(claims, candidate, now, s) == i,
    decreases i - s,
{
    if s < i {
        lemma_first_blocker_scan(claims, candidate, now, s + 1, i);
    }
}

proof fn lemma_no_blocker(claims: Seq<ClaimView>, candidate: ClaimView, now: UtcTime)
    requires
        forall|j: int| 0 <= j < claims.len() ==> !#[trigger] claim_blocks(claims[j], candidate, now),
    ensures
        first_blocker(claims, candidate, now, 0) == -1,
{
    lemma_no_blocker_from(claims, candidate, now, 0);
}

proof fn lemma_no_blocker_from(claims: Seq<ClaimView>, candidate: ClaimView, now: UtcTime, s: int)
    requires
        0 <= s,
        forall|j: int| 0 <= j < claims.len() ==> !#[trigger] claim_blocks(claims[j], candidate, now),
    ensures
        first_blocker(claims, candidate, now, s) == -1,
    decreases claims.len() - s,
{
    if s < claims.len() {
        lemma_no_blocker_from(claims, candidate, now, s + 1);
    }
}

} // verus!

verus! {

proof fn lemma_first_blocker_found(
    claims: Seq<ClaimView>,
    candidate: ClaimView,
    now: UtcTime,
    s: int,
    i: int,
)
    requires
        0 <= s <= i < claims.len(),
        claim_blocks(claims[i], candidate, now),
    ensures
        s <= first_blocker(claims, candidate, now, s) <= i,
    decreases i - s,
{
    if !claim_blocks(claims[s], candidate, now) {
        lemma_first_blocker_found(claims, candidate, now, s + 1, i);
    }
}

/// Whether existing claim `e` stands against `candidate` at `now`: it is in
/// force, it is not the same holder's claim on the same glob, the two globs
/// overlap, and either claim is exclusive.
pub open spec fn stands_against(e: ClaimView, candidate: ClaimView, now: UtcTime) -> bool {
    &&& match e.expires_at {
        Some(exp) => now.secs < exp.secs || (now.secs == exp.secs && now.nanos < exp.nanos),
        None => true,
    }
    &&& (e.dimension != candidate.dimension || e.agent_id != candidate.agent_id || e.path_glob != candidate.path_glob)
    &&& globs_overlap(e.path_glob, candidate.path_glob)
    &&& (candidate.exclusive || e.exclusive)
}

/// A claim is refused exactly when some existing claim stands against it;
/// in particular an exclusive candidate is refused over any overlapping
/// claim in force of another holder or glob, exclusive or shared, and any
/// candidate over an overlapping exclusive one. The refusal names the first
/// such claim.
pub proof fn lemma_claim_refused_iff(claims: Seq<ClaimView>, candidate: ClaimView, now: UtcTime)
    ensures
        (first_blocker(claims, candidate, now, 0) >= 0) == (exists|i: int|
            0 <= i < claims.len() && stands_against(#[trigger] claims[i], candidate, now)),
        first_blocker(claims, candidate, now, 0) >= 0 ==> {
            let b = first_blocker(claims, candidate, now, 0);
            &&& b < claims.len()
            &&& stands_against(claims[b], candidate, now)
            &&& forall|j: int| 0 <= j < b ==> !stands_against(#[trigger] claims[j], candidate, now)
        },
{
    assert forall|e: ClaimView| #[trigger] claim_blocks(e, candidate, now) == stands_against(e, candidate, now) by {}
    if exists|i: int| 0 <= i < claims.len() && stands_against(#[trigger] claims[i], candidate, now) {
        let i = choose|i: int| 0 <= i < claims.len() && stands_against(#[trigger] claims[i], candidate, now);
        assert(claim_blocks(claims[i], candidate, now));
        lemma_first_blocker_found(claims, candidate, now, 0, i);
    } else {
        assert forall|j: int| 0 <= j < claims.len() implies !#[trigger] claim_blocks(claims[j], candidate, now) by {
            assert(!stands_against(claims[j], candidate, now));
        }
        lemma_no_blocker(claims, candidate, now);
    }
    if first_blocker(claims, candidate, now, 0) >= 0 {
        lemma_first_blocker_props(claims, candidate, now, 0);
        let b = first_blocker(claims, candidate, now, 0);
        assert(claim_blocks(claims[b], candidate, now));
        assert forall|j: int| 0 <= j < b implies !stands_against(#[trigger] claims[j], candidate, now) by {
            assert(!claim_blocks(claims[j], candidate, now));
        }
    }
}

proof fn lemma_first_blocker_props(claims: Seq<ClaimView>, candidate: ClaimView, now: UtcTime, s: int)
    requires
        0 <= s,
        first_blocker(claims, candidate, now, s) >= 0,
    ensures
        s <= first_blocker(claims, candidate, now, s) < claims.len(),
        claim_blocks(claims[first_blocker(claims, candidate, now, s)], candidate, now),
        forall|j: int| s <= j < first_blocker(claims, candidate, now, s) ==> !#[trigger] claim_blocks(claims[j], candidate, now),
    decreases claims.len() - s,
{
    if s < claims.len() && !claim_blocks(claims[s], candidate, now) {
        lemma_first_blocker_props(claims, candidate, now, s + 1);
    }
}

/// An exclusive claim in force keeps every other holder from claiming any
/// glob that overlaps it: such a claim is refused.
pub proof fn lemma_exclusive_claim_excludes_overlap(
    claims: Seq<ClaimView>,
    i: int,
    candidate: ClaimView,
    now: UtcTime,
)
    requires
        0 <= i < claims.len(),
        in_force(claims[i].expires_at, now),
        claims[i].exclusive,
        claims[i].dimension != candidate.dimension || claims[i].agent_id != candidate.agent_id,
        globs_overlap(claims[i].path_glob, candidate.path_glob),
    ensures
        first_blocker(claims, candidate, now, 0) >= 0,
{
    lemma_first_blocker_found(claims, candidate, now, 0, i);
}

/// Renewing one's own claim on the same glob is never blocked by that claim.
pub proof fn lemma_renewal_not_blocked_by_itself(existing: ClaimView, candidate: ClaimView, now: UtcTime)
    requires
        existing.dimension == candidate.dimension,
        existing.agent_id == candidate.agent_id,
        existing.path_glob == candidate.path_glob,
    ensures
        !claim_blocks(existing, candidate, now),
{
}

/// A claim whose glob overlaps no existing claim is always granted.
pub proof fn lemma_disjoint_claim_granted(claims: Seq<ClaimView>, candidate: ClaimView, now: UtcTime)
    requires
        forall|j: int|
            0 <= j < claims.len() ==> !globs_overlap(#[trigger] claims[j].path_glob, candidate.path_glob),
    ensures
        first_blocker(claims, candidate, now, 0) == -1,
{
    lemma_no_blocker(claims, candidate, now);
}

/// Staging in a dimension is never blocked by fences that dimension owns.
pub proof fn lemma_owner_may_stage(
    fences: Seq<FenceView>,
    now: UtcTime,
    dimension: Seq<char>,
    paths: Seq<Seq<char>>,
    s: int,
)
    requires
        0 <= s,
        forall|k: int| 0 <= k < fences.len() ==> (#[trigger] fences[k]).owner_dimension == Some(
            dimension,
        ),
    ensures
        first_fenced_path(fences, now, dimension, paths, s) == -1,
    decreases paths.len() - s,
{
    if s < paths.len() {
        lemma_owner_may_stage(fences, now, dimension, paths, s + 1);
    }
}

proof fn lemma_first_fenced_found(
    fences: Seq<FenceView>,
    now: UtcTime,
    dimension: Seq<char>,
    paths: Seq<Seq<char>>,
    s: int,
    i: int,
)
    requires
        0 <= s <= i < paths.len(),
        hard_fenced(fences, now, dimension, normalized(paths[i])),
    ensures
        s <= first_fenced_path(fences, now, dimension, paths, s) <= i,
    decreases i - s,
{
    if !hard_fenced(fences, now, dimension, normalized(paths[s])) {
        lemma_first_fenced_found(fences, now, dimension, paths, s + 1, i);
    }
}

/// A hard fence in force that is not owned by the dimension blocks staging
/// any path its glob matches.
pub proof fn lemma_foreign_hard_fence_blocks(
    fences: Seq<FenceView>,
    k: int,
    now: UtcTime,
    dimension: Seq<char>,
    paths: Seq<Seq<char>>,
    i: int,
)
    requires
        0 <= k < fences.len(),
        0 <= i < paths.len(),
        in_force(fences[k].expires_at, now),
        fences[k].hard,
        fences[k].owner_dimension != Some(dimension),
        glob_matches(fences[k].path_glob, normalized(paths[i])),
    ensures
        first_fenced_path(fences, now, dimension, paths, 0) >= 0,
{
    assert(fence_bars(fences[k], normalized(paths[i]), dimension));
    lemma_first_fenced_found(fences, now, dimension, paths, 0, i);
}

} // verus!
