//! The territory audit: which claims ran out, which claims collide, which
//! fences contradict claims, and which workspace files breach fences or
//! exclusive claims.
use vstd::prelude::*;
use crate::clock::UtcTime;
use crate::select::{lemma_select_partition, lemma_select_take_step, select};
use crate::territory::claim::{in_force, Claim, ClaimView};
use crate::territory::fence::{fence_bars, Fence, FenceView};
use crate::territory::glob::{glob_matches, globs_overlap, matches_glob, patterns_overlap, slashes_fixed};
use crate::territory::store::TerritoryStore;
use crate::territory::{active_claims, claim_views, claims_in_force, fence_views};
use crate::text::{
    chars_of, clone_opt_string, join3, opt_eq, opt_view, str_eq, string_of,
};

verus! {

/// Two claims in force whose globs overlap, at least one of them exclusive,
/// held by different holders.
#[derive(Debug, Clone)]
pub struct ClaimCollision {
    pub path_glob_a: String,
    pub claim_id_a: String,
    pub agent_a: Option<String>,
    pub dimension_a: String,
    pub path_glob_b: String,
    pub claim_id_b: String,
    pub agent_b: Option<String>,
    pub dimension_b: String,
    pub is_exclusive: bool,
}

pub struct ClaimCollisionView {
    pub path_glob_a: Seq<char>,
    pub claim_id_a: Seq<char>,
    pub agent_a: Option<Seq<char>>,
    pub dimension_a: Seq<char>,
    pub path_glob_b: Seq<char>,
    pub claim_id_b: Seq<char>,
    pub agent_b: Option<Seq<char>>,
    pub dimension_b: Seq<char>,
    pub is_exclusive: bool,
}

impl View for ClaimCollision {
    type V = ClaimCollisionView;

    open spec fn view(&self) -> ClaimCollisionView {
        ClaimCollisionView {
            path_glob_a: self.path_glob_a@,
            claim_id_a: self.claim_id_a@,
            agent_a: opt_view(self.agent_a),
            dimension_a: self.dimension_a@,
            path_glob_b: self.path_glob_b@,
            claim_id_b: self.claim_id_b@,
            agent_b: opt_view(self.agent_b),
            dimension_b: self.dimension_b@,
            is_exclusive: self.is_exclusive,
        }
    }
}

/// A fence in force whose glob overlaps a claim of a dimension other than the
/// fence's owner.
#[derive(Debug, Clone)]
pub struct FenceConflict {
    pub fence_path: String,
    pub fence_owner: Option<String>,
    pub claim_path: String,
    pub claim_owner_dim: String,
    pub claim_agent: Option<String>,
}

pub struct FenceConflictView {
    pub fence_path: Seq<char>,
    pub fence_owner: Option<Seq<char>>,
    pub claim_path: Seq<char>,
    pub claim_owner_dim: Seq<char>,
    pub claim_agent: Option<Seq<char>>,
}

impl View for FenceConflict {
    type V = FenceConflictView;

    open spec fn view(&self) -> FenceConflictView {
        FenceConflictView {
            fence_path: self.fence_path@,
            fence_owner: opt_view(self.fence_owner),
            claim_path: self.claim_path@,
            claim_owner_dim: self.claim_owner_dim@,
            claim_agent: opt_view(self.claim_agent),
        }
    }
}

/// What a workspace file breaches.
#[derive(Debug, Clone, Copy, PartialEq, Eq, Structural)]
pub enum ViolationType {
    FenceBreach,
    ClaimBreach,
}

/// A workspace file that breaches a fence or an exclusive claim.
#[derive(Debug, Clone)]
pub struct TerritoryViolation {
    pub file_path: String,
    pub dimension: String,
    pub violation_type: ViolationType,
    pub message: String,
}

pub struct TerritoryViolationView {
    pub file_path: Seq<char>,
    pub dimension: Seq<char>,
    pub violation_type: ViolationType,
    pub message: Seq<char>,
}

impl View for TerritoryViolation {
    type V = TerritoryViolationView;

    open spec fn view(&self) -> TerritoryViolationView {
        TerritoryViolationView {
            file_path: self.file_path@,
            dimension: self.dimension@,
            violation_type: self.violation_type,
            message: self.message@,
        }
    }
}

/// A file found in the workspace of a dimension, by its path relative to that
/// workspace.
#[derive(Debug, Clone)]
pub struct WorkspaceFile {
    pub dimension: String,
    pub path: String,
}

/// The findings of a territory audit.
#[derive(Debug, Clone)]
pub struct AuditReport {
    pub total_claims: usize,
    pub active_claims: usize,
    pub expired_claims: Vec<Claim>,
    pub total_fences: usize,
    pub collisions: Vec<ClaimCollision>,
    pub fence_conflicts: Vec<FenceConflict>,
    pub violations: Vec<TerritoryViolation>,
    pub fixed_pruned_claims: Vec<String>,
}

impl AuditReport {
    /// Whether the audit found nothing: no collision, no fence conflict, no
    /// violation and no claim that ran out.
    pub fn is_clean(&self) -> (r: bool)
        ensures
            r == (self.collisions@.len() == 0 && self.fence_conflicts@.len() == 0
                && self.violations@.len() == 0 && self.expired_claims@.len() == 0),
    {
        self.collisions.len() == 0 && self.fence_conflicts.len() == 0 && self.violations.len() == 0
            && self.expired_claims.len() == 0
    }
}

/// Whether two claims collide.
pub open spec fn claims_collide(a: ClaimView, b: ClaimView) -> bool {
    &&& !(a.dimension == b.dimension && a.agent_id == b.agent_id)
    &&& globs_overlap(a.path_glob, b.path_glob)
    &&& (a.exclusive || b.exclusive)
}

pub open spec fn collision_of(a: ClaimView, b: ClaimView) -> ClaimCollisionView {
    ClaimCollisionView {
        path_glob_a: a.path_glob,
        claim_id_a: a.id,
        agent_a: a.agent_id,
        dimension_a: a.dimension,
        path_glob_b: b.path_glob,
        claim_id_b: b.id,
        agent_b: b.agent_id,
        dimension_b: b.dimension,
        is_exclusive: true,
    }
}

/// The collisions of claim `i` with the claims after it and before `n`.
pub open spec fn collision_row(act: Seq<ClaimView>, i: int, n: int) -> Seq<ClaimCollisionView>
    decreases n,
{
    if n <= i + 1 || n > act.len() || i < 0 {
        Seq::empty()
    } else if claims_collide(act[i], act[n - 1]) {
        collision_row(act, i, n - 1).push(collision_of(act[i], act[n - 1]))
    } else {
        collision_row(act, i, n - 1)
    }
}

/// The collisions among the first `m` claims and all later ones, pair by pair.
pub open spec fn collision_rows(act: Seq<ClaimView>, m: int) -> Seq<ClaimCollisionView>
    decreases m,
{
    if m <= 0 {
        Seq::empty()
    } else {
        collision_rows(act, m - 1) + collision_row(act, m - 1, act.len() as int)
    }
}

/// Whether a fence contradicts a claim in force.
pub open spec fn fence_contradicts(f: FenceView, c: ClaimView, now: UtcTime) -> bool {
    &&& in_force(f.expires_at, now)
    &&& globs_overlap(f.path_glob, c.path_glob)
    &&& f.owner_dimension matches Some(o) && o != c.dimension
}

pub open spec fn fence_conflict_of(f: FenceView, c: ClaimView) -> FenceConflictView {
    FenceConflictView {
        fence_path: f.path_glob,
        fence_owner: f.owner_dimension,
        claim_path: c.path_glob,
        claim_owner_dim: c.dimension,
        claim_agent: c.agent_id,
    }
}

/// The conflicts of fence `f` with the first `n` claims.
pub open spec fn fence_row(f: FenceView, act: Seq<ClaimView>, now: UtcTime, n: int) -> Seq<
    FenceConflictView,
>
    decreases n,
{
    if n <= 0 || n > act.len() {
        Seq::empty()
    } else if fence_contradicts(f, act[n - 1], now) {
        fence_row(f, act, now, n - 1).push(fence_conflict_of(f, act[n - 1]))
    } else {
        fence_row(f, act, now, n - 1)
    }
}

/// The conflicts of the first `m` fences with the claims.
pub open spec fn fence_rows(
    fences: Seq<FenceView>,
    act: Seq<ClaimView>,
    now: UtcTime,
    m: int,
) -> Seq<FenceConflictView>
    decreases m,
{
    if m <= 0 || m > fences.len() {
        Seq::empty()
    } else {
        fence_rows(fences, act, now, m - 1) + fence_row(fences[m - 1], act, now, act.len() as int)
    }
}

/// Whether a fence makes a workspace file of `dimension` at `path` a breach.
pub open spec fn breaches_fence(f: FenceView, path: Seq<char>, dimension: Seq<char>, now: UtcTime) -> bool {
    f.hard && in_force(f.expires_at, now) && fence_bars(f, path, dimension)
}

/// Whether an exclusive claim of another dimension makes a workspace file of
/// `dimension` at `path` a breach.
pub open spec fn breaches_claim(c: ClaimView, path: Seq<char>, dimension: Seq<char>) -> bool {
    c.exclusive && c.dimension != dimension && glob_matches(c.path_glob, path)
}

pub open spec fn fence_breach(f: FenceView, path: Seq<char>, dimension: Seq<char>) -> TerritoryViolationView {
    TerritoryViolationView {
        file_path: path,
        dimension: dimension,
        violation_type: ViolationType::FenceBreach,
        message: "File '"@ + path + "' violates hard fence '"@ + f.path_glob + "'"@,
    }
}

pub open spec fn claim_breach(c: ClaimView, path: Seq<char>, dimension: Seq<char>) -> TerritoryViolationView {
    TerritoryViolationView {
        file_path: path,
        dimension: dimension,
        violation_type: ViolationType::ClaimBreach,
        message: "File '"@ + path + "' modified in dimension '"@ + dimension
            + "' violates exclusive claim by '"@ + c.dimension + "'"@,
    }
}

/// The fence breaches of one file, over the first `n` fences.
pub open spec fn fence_breaches(
    fences: Seq<FenceView>,
    path: Seq<char>,
    dimension: Seq<char>,
    now: UtcTime,
    n: int,
) -> Seq<TerritoryViolationView>
    decreases n,
{
    if n <= 0 || n > fences.len() {
        Seq::empty()
    } else if breaches_fence(fences[n - 1], path, dimension, now) {
        fence_breaches(fences, path, dimension, now, n - 1).push(
            fence_breach(fences[n - 1], path, dimension),
        )
    } else {
        fence_breaches(fences, path, dimension, now, n - 1)
    }
}

/// The claim breaches of one file, over the first `n` claims in force.
pub open spec fn claim_breaches(act: Seq<ClaimView>, path: Seq<char>, dimension: Seq<char>, n: int) -> Seq<
    TerritoryViolationView,
>
    decreases n,
{
    if n <= 0 || n > act.len() {
        Seq::empty()
    } else if breaches_claim(act[n - 1], path, dimension) {
        claim_breaches(act, path, dimension, n - 1).push(claim_breach(act[n - 1], path, dimension))
    } else {
        claim_breaches(act, path, dimension, n - 1)
    }
}

/// The breaches of the first `m` workspace files, file by file: fence
/// breaches first, then claim breaches.
pub open spec fn file_breaches(
    files: Seq<(Seq<char>, Seq<char>)>,
    fences: Seq<FenceView>,
    act: Seq<ClaimView>,
    now: UtcTime,
    m: int,
) -> Seq<TerritoryViolationView>
    decreases m,
{
    if m <= 0 || m > files.len() {
        Seq::empty()
    } else {
        let (dim, raw) = files[m - 1];
        let path = slashes_fixed(raw);
        file_breaches(files, fences, act, now, m - 1) + fence_breaches(
            fences,
            path,
            dim,
            now,
            fences.len() as int,
        ) + claim_breaches(act, path, dim, act.len() as int)
    }
}

/// The workspace files as (dimension, path) pairs.
pub open spec fn file_pairs(files: Seq<WorkspaceFile>) -> Seq<(Seq<char>, Seq<char>)> {
    files.map_values(|f: WorkspaceFile| (f.dimension@, f.path@))
}

pub open spec fn collision_views(v: Seq<ClaimCollision>) -> Seq<ClaimCollisionView> {
    v.map_values(|c: ClaimCollision| c@)
}

pub open spec fn fence_conflict_views(v: Seq<FenceConflict>) -> Seq<FenceConflictView> {
    v.map_values(|c: FenceConflict| c@)
}

pub open spec fn violation_views(v: Seq<TerritoryViolation>) -> Seq<TerritoryViolationView> {
    v.map_values(|c: TerritoryViolation| c@)
}

/// Audits claims and fences against each other and against workspace files.
pub struct AuditEngine<'a> {
    store: &'a TerritoryStore,
    dft_dir: &'a str,
}

impl<'a> AuditEngine<'a> {
    pub fn new(store: &'a TerritoryStore, dft_dir: &'a str) -> (r: Self)
        ensures
            r.store() == store,
            r.dft_dir()@ == dft_dir@,
    {
        AuditEngine { store, dft_dir }
    }

    pub closed spec fn store(&self) -> &'a TerritoryStore {
        self.store
    }

    pub closed spec fn dft_dir(&self) -> &'a str {
        self.dft_dir
    }

    /// The audit of `claims` and `fences` at `now`, with the files found in
    /// the dimension workspaces. Nothing is pruned here:
    /// `fixed_pruned_claims` is empty.
    pub fn audit(
        &self,
        claims: &Vec<Claim>,
        fences: &Vec<Fence>,
        now: UtcTime,
        files: &Vec<WorkspaceFile>,
    ) -> (r: AuditReport)
        ensures
            ({
                let cv = claim_views(claims@);
                let fv = fence_views(fences@);
                let act = claims_in_force(cv, now);
                &&& claim_views(r.expired_claims@) == select(
                    cv,
                    |c: ClaimView| !in_force(c.expires_at, now),
                )
                &&& r.active_claims == act.len()
                &&& r.total_claims == claims@.len()
                &&& r.total_claims == r.active_claims + r.expired_claims@.len()
                &&& r.total_fences == fences@.len()
                &&& collision_views(r.collisions@) == collision_rows(act, act.len() as int)
                &&& fence_conflict_views(r.fence_conflicts@) == fence_rows(
                    fv,
                    act,
                    now,
                    fv.len() as int,
                )
                &&& violation_views(r.violations@) == file_breaches(
                    file_pairs(files@),
                    fv,
                    act,
                    now,
                    files@.len() as int,
                )
                &&& r.fixed_pruned_claims@.len() == 0
            }),
    {
        let ghost cv = claim_views(claims@);
        let active = active_claims(claims, now);
        let expired = expired_claims(claims, now);
        proof {
            let p = |c: ClaimView| in_force(c.expires_at, now);
            lemma_select_partition(cv, p);
            assert((|x: ClaimView| !p(x)) =~= (|c: ClaimView| !in_force(c.expires_at, now)));
            assert(active@.len() + expired@.len() == claims@.len());
        }
        let collisions = find_collisions(&active);
        let fence_conflicts = find_fence_conflicts(fences, &active, now);
        let violations = find_violations(files, fences, &active, now);
        AuditReport {
            total_claims: claims.len(),
            active_claims: active.len(),
            expired_claims: expired,
            total_fences: fences.len(),
            collisions,
            fence_conflicts,
            violations,
            fixed_pruned_claims: Vec::new(),
        }
    }
}

/// The claims no longer in force at `now`, in their order.
fn expired_claims(claims: &Vec<Claim>, now: UtcTime) -> (r: Vec<Claim>)
    ensures
        claim_views(r@) == select(claim_views(claims@), |c: ClaimView| !in_force(c.expires_at, now)),
{
    let ghost p = |c: ClaimView| !in_force(c.expires_at, now);
    let ghost views = claim_views(claims@);
    let mut out: Vec<Claim> = Vec::new();
    let mut i: usize = 0;
    while i < claims.len()
        invariant
            i <= claims.len(),
            views == claim_views(claims@),
            p == (|c: ClaimView| !in_force(c.expires_at, now)),
            claim_views(out@) == select(views.take(i as int), p),
        decreases claims.len() - i,
    {
        proof {
            lemma_select_take_step(views, i as int, p);
            assert(views[i as int] == claims[i as int]@);
        }
        if !claims[i].is_active(now) {
            out.push(claims[i].duplicate());
            proof {
                assert(claim_views(out@) =~= select(views.take(i as int), p).push(claims[i as int]@));
            }
        }
        i = i + 1;
    }
    proof {
        assert(views.take(claims.len() as int) =~= views);
    }
    out
}

fn collision_record(a: &Claim, b: &Claim) -> (r: ClaimCollision)
    ensures
        r@ == collision_of(a@, b@),
{
    ClaimCollision {
        path_glob_a: a.path_glob.clone(),
        claim_id_a: a.id.clone(),
        agent_a: clone_opt_string(&a.agent_id),
        dimension_a: a.dimension.clone(),
        path_glob_b: b.path_glob.clone(),
        claim_id_b: b.id.clone(),
        agent_b: clone_opt_string(&b.agent_id),
        dimension_b: b.dimension.clone(),
        is_exclusive: true,
    }
}

fn collide(a: &Claim, b: &Claim) -> (r: bool)
    ensures
        r == claims_collide(a@, b@),
{
    if str_eq(a.dimension.as_str(), b.dimension.as_str()) && opt_eq(&a.agent_id, &b.agent_id) {
        return false;
    }
    patterns_overlap(a.path_glob.as_str(), b.path_glob.as_str()) && (a.exclusive || b.exclusive)
}

/// Every colliding pair of claims, in order of the first claim, then the second.
fn find_collisions(act: &Vec<Claim>) -> (r: Vec<ClaimCollision>)
    ensures
        collision_views(r@) == collision_rows(claim_views(act@), act@.len() as int),
{
    let ghost av = claim_views(act@);
    let mut out: Vec<ClaimCollision> = Vec::new();
    let mut i: usize = 0;
    while i < act.len()
        invariant
            i <= act.len(),
            av == claim_views(act@),
            collision_views(out@) == collision_rows(av, i as int),
        decreases act.len() - i,
    {
        let mut j: usize = i + 1;
        proof {
            assert(collision_row(av, i as int, i + 1) =~= Seq::<ClaimCollisionView>::empty());
            assert(collision_views(out@) =~= collision_rows(av, i as int) + collision_row(
                av,
                i as int,
                j as int,
            ));
        }
        while j < act.len()
            invariant
                i < act.len(),
                i + 1 <= j <= act.len(),
                av == claim_views(act@),
                collision_views(out@) == collision_rows(av, i as int) + collision_row(
                    av,
                    i as int,
                    j as int,
                ),
            decreases act.len() - j,
        {
            assert(av[i as int] == act[i as int]@ && av[j as int] == act[j as int]@);
            if collide(&act[i], &act[j]) {
                let rec = collision_record(&act[i], &act[j]);
                out.push(rec);
                proof {
                    assert(collision_views(out@) =~= (collision_rows(av, i as int) + collision_row(
                        av,
                        i as int,
                        j as int,
                    )).push(collision_of(av[i as int], av[j as int])));
                }
            }
            j = j + 1;
        }
        i = i + 1;
    }
    out
}

fn fence_conflict_record(f: &Fence, c: &Claim) -> (r: FenceConflict)
    ensures
        r@ == fence_conflict_of(f@, c@),
{
    FenceConflict {
        fence_path: f.path_glob.clone(),
        fence_owner: clone_opt_string(&f.owner_dimension),
        claim_path: c.path_glob.clone(),
        claim_owner_dim: c.dimension.clone(),
        claim_agent: clone_opt_string(&c.agent_id),
    }
}

/// Every fence in force that contradicts a claim, fence by fence.
fn find_fence_conflicts(fences: &Vec<Fence>, act: &Vec<Claim>, now: UtcTime) -> (r: Vec<
    FenceConflict,
>)
    ensures
        fence_conflict_views(r@) == fence_rows(
            fence_views(fences@),
            claim_views(act@),
            now,
            fences@.len() as int,
        ),
{
    let ghost fv = fence_views(fences@);
    let ghost av = claim_views(act@);
    let mut out: Vec<FenceConflict> = Vec::new();
    let mut k: usize = 0;
    while k < fences.len()
        invariant
            k <= fences.len(),
            fv == fence_views(fences@),
            av == claim_views(act@),
            fence_conflict_views(out@) == fence_rows(fv, av, now, k as int),
        decreases fences.len() - k,
    {
        let f = &fences[k];
        assert(fv[k as int] == f@);
        let mut j: usize = 0;
        proof {
            assert(fence_row(f@, av, now, 0) =~= Seq::<FenceConflictView>::empty());
            assert(fence_conflict_views(out@) =~= fence_rows(fv, av, now, k as int) + fence_row(
                f@,
                av,
                now,
                0,
            ));
        }
        while j < act.len()
            invariant
                k < fences.len(),
                j <= act.len(),
                fv == fence_views(fences@),
                av == claim_views(act@),
                f@ == fv[k as int],
                fence_conflict_views(out@) == fence_rows(fv, av, now, k as int) + fence_row(
                    f@,
                    av,
                    now,
                    j as int,
                ),
            decreases act.len() - j,
        {
            let c = &act[j];
            assert(av[j as int] == c@);
            let mut hit = false;
            if f.is_active(now) && patterns_overlap(f.path_glob.as_str(), c.path_glob.as_str()) {
                if let Some(owner) = &f.owner_dimension {
                    if !str_eq(owner.as_str(), c.dimension.as_str()) {
                        hit = true;
                    }
                }
            }
            if hit {
                out.push(fence_conflict_record(f, c));
                proof {
                    assert(fence_conflict_views(out@) =~= (fence_rows(fv, av, now, k as int)
                        + fence_row(f@, av, now, j as int)).push(fence_conflict_of(f@, c@)));
                }
            }
            j = j + 1;
        }
        k = k + 1;
    }
    out
}

/// Every breach of every workspace file, file by file.
fn find_violations(
    files: &Vec<WorkspaceFile>,
    fences: &Vec<Fence>,
    act: &Vec<Claim>,
    now: UtcTime,
) -> (r: Vec<TerritoryViolation>)
    ensures
        violation_views(r@) == file_breaches(
            file_pairs(files@),
            fence_views(fences@),
            claim_views(act@),
            now,
            files@.len() as int,
        ),
{
    let ghost fp = file_pairs(files@);
    let ghost fv = fence_views(fences@);
    let ghost av = claim_views(act@);
    let mut out: Vec<TerritoryViolation> = Vec::new();
    let mut m: usize = 0;
    while m < files.len()
        invariant
            m <= files.len(),
            fp == file_pairs(files@),
            fv == fence_views(fences@),
            av == claim_views(act@),
            violation_views(out@) == file_breaches(fp, fv, av, now, m as int),
        decreases files.len() - m,
    {
        let file = &files[m];
        let path = string_of(&fix_slashes(&chars_of(file.path.as_str())));
        let dim = file.dimension.as_str();
        let ghost base = violation_views(out@);
        assert(fp[m as int] == (file.dimension@, file.path@));
        let mut k: usize = 0;
        proof {
            assert(fence_breaches(fv, path@, dim@, now, 0) =~= Seq::<TerritoryViolationView>::empty());
            assert(violation_views(out@) =~= base + fence_breaches(fv, path@, dim@, now, 0));
        }
        while k < fences.len()
            invariant
                k <= fences.len(),
                fv == fence_views(fences@),
                violation_views(out@) == base + fence_breaches(fv, path@, dim@, now, k as int),
            decreases fences.len() - k,
        {
            let f = &fences[k];
            assert(fv[k as int] == f@);
            if f.hard && f.is_active(now) && f.is_violated_by(path.as_str(), dim) {
                let m1 = join3("File '", path.as_str(), "' violates hard fence '");
                let msg = join3(m1.as_str(), f.path_glob.as_str(), "'");
                out.push(
                    TerritoryViolation {
                        file_path: path.clone(),
                        dimension: String::from_str(dim),
                        violation_type: ViolationType::FenceBreach,
                        message: msg,
                    },
                );
                proof {
                    assert(violation_views(out@) =~= (base + fence_breaches(
                        fv,
                        path@,
                        dim@,
                        now,
                        k as int,
                    )).push(fence_breach(f@, path@, dim@)));
                }
            }
            k = k + 1;
        }
        let ghost base2 = violation_views(out@);
        let mut j: usize = 0;
        proof {
            assert(claim_breaches(av, path@, dim@, 0) =~= Seq::<TerritoryViolationView>::empty());
            assert(violation_views(out@) =~= base2 + claim_breaches(av, path@, dim@, 0));
        }
        while j < act.len()
            invariant
                j <= act.len(),
                av == claim_views(act@),
                violation_views(out@) == base2 + claim_breaches(av, path@, dim@, j as int),
            decreases act.len() - j,
        {
            let c = &act[j];
            assert(av[j as int] == c@);
            if c.exclusive && !str_eq(c.dimension.as_str(), dim) && matches_glob(
                c.path_glob.as_str(),
                path.as_str(),
            ) {
                let m1 = join3("File '", path.as_str(), "' modified in dimension '");
                let m2 = join3(m1.as_str(), dim, "' violates exclusive claim by '");
                let msg = join3(m2.as_str(), c.dimension.as_str(), "'");
                out.push(
                    TerritoryViolation {
                        file_path: path.clone(),
                        dimension: String::from_str(dim),
                        violation_type: ViolationType::ClaimBreach,
                        message: msg,
                    },
                );
                proof {
                    assert(violation_views(out@) =~= (base2 + claim_breaches(
                        av,
                        path@,
                        dim@,
                        j as int,
                    )).push(claim_breach(c@, path@, dim@)));
                }
            }
            j = j + 1;
        }
        proof {
            assert(violation_views(out@) =~= file_breaches(fp, fv, av, now, m + 1));
        }
        m = m + 1;
    }
    out
}

/// Backslashes turned into forward slashes.
fn fix_slashes(v: &Vec<char>) -> (r: Vec<char>)
    ensures
        r@ == slashes_fixed(v@),
{
    let mut out: Vec<char> = Vec::new();
    let mut i: usize = 0;
    while i < v.len()
        invariant
            i <= v.len(),
            out@ == slashes_fixed(v@.take(i as int)),
        decreases v.len() - i,
    {
        let c = if v[i] == '\\' {
            '/'
        } else {
            v[i]
        };
        out.push(c);
        proof {
            assert(slashes_fixed(v@.take(i + 1)) =~= slashes_fixed(v@.take(i as int)).push(c));
        }
        i = i + 1;
    }
    proof {
        assert(v@.take(v.len() as int) == v@);
    }
    out
}

} // verus!
