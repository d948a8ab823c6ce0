//! Where the claims and fences of a repository are kept on disk.
use vstd::prelude::*;
use crate::clock::{earlier, is_earlier, UtcTime};
use crate::territory::claim::Claim;
use crate::territory::fence::Fence;
use crate::territory::{claim_views, fence_views, ClaimView, FenceView};
use crate::text::{join2, path_join, path_joined};

verus! {

/// The territory directory of a repository and the places below it.
pub struct TerritoryStore {
    territory_dir: String,
    claims_dir: String,
    fences_dir: String,
}

impl TerritoryStore {
    pub closed spec fn spec_territory_dir(&self) -> Seq<char> {
        self.territory_dir@
    }

    pub closed spec fn spec_claims_dir(&self) -> Seq<char> {
        self.claims_dir@
    }

    pub closed spec fn spec_fences_dir(&self) -> Seq<char> {
        self.fences_dir@
    }

    /// The store rooted at `territory_dir`, with `claims` and `fences` below it.
    pub fn new(territory_dir: &str) -> (r: Self)
        ensures
            r.spec_territory_dir() == territory_dir@,
            r.spec_claims_dir() == path_joined(territory_dir@, "claims"@),
            r.spec_fences_dir() == path_joined(territory_dir@, "fences"@),
    {
        TerritoryStore {
            territory_dir: String::from_str(territory_dir),
            claims_dir: path_join(territory_dir, "claims"),
            fences_dir: path_join(territory_dir, "fences"),
        }
    }

    pub fn territory_dir(&self) -> (r: &str)
        ensures
            r@ == self.spec_territory_dir(),
    {
        self.territory_dir.as_str()
    }

    pub fn claims_dir(&self) -> (r: &str)
        ensures
            r@ == self.spec_claims_dir(),
    {
        self.claims_dir.as_str()
    }

    pub fn fences_dir(&self) -> (r: &str)
        ensures
            r@ == self.spec_fences_dir(),
    {
        self.fences_dir.as_str()
    }

    /// The file of one claim.
    pub fn claim_file(&self, claim_id: &str) -> (r: String)
        ensures
            r@ == path_joined(self.spec_claims_dir(), claim_id@ + ".json"@),
    {
        let name = join2(claim_id, ".json");
        path_join(self.claims_dir.as_str(), name.as_str())
    }

    /// The file of one fence.
    pub fn fence_file(&self, fence_id: &str) -> (r: String)
        ensures
            r@ == path_joined(self.spec_fences_dir(), fence_id@ + ".json"@),
    {
        let name = join2(fence_id, ".json");
        path_join(self.fences_dir.as_str(), name.as_str())
    }

    /// The file that every claim is also listed in.
    pub fn claims_cache_file(&self) -> (r: String)
        ensures
            r@ == path_joined(self.spec_territory_dir(), "claims.json"@),
    {
        path_join(self.territory_dir.as_str(), "claims.json")
    }

    /// The file that every fence is also listed in.
    pub fn fences_cache_file(&self) -> (r: String)
        ensures
            r@ == path_joined(self.spec_territory_dir(), "fences.json"@),
    {
        path_join(self.territory_dir.as_str(), "fences.json")
    }

    /// The lock file that serializes territory changes.
    pub fn lock_file(&self) -> (r: String)
        ensures
            r@ == path_joined(self.spec_territory_dir(), ".lock"@),
    {
        path_join(self.territory_dir.as_str(), ".lock")
    }
}

// ---------------------------------------------------------------------------
// Loading in order of creation
// ---------------------------------------------------------------------------

/// Where a stable sort by time puts position `x` among positions already in
/// order: before the first one made later, searching from `k`.
pub open spec fn time_slot_of(times: Seq<UtcTime>, order: Seq<int>, x: int, k: int) -> int
    decreases order.len() - k,
{
    if k < 0 || k >= order.len() {
        order.len() as int
    } else if earlier(times[x], times[order[k]]) {
        k
    } else {
        time_slot_of(times, order, x, k + 1)
    }
}

/// The positions of the times in the order of a stable sort by time: the
/// earliest first, those made at the same time in their order.
pub open spec fn time_order(times: Seq<UtcTime>) -> Seq<int>
    decreases times.len(),
{
    if times.len() == 0 {
        Seq::empty()
    } else {
        let o = time_order(times.drop_last());
        let x = times.len() - 1;
        o.insert(time_slot_of(times, o, x, 0), x)
    }
}

/// The slot found from `k`: within bounds, after every position from `k`
/// on that is not later, and before one that is.
proof fn lemma_time_slot_of(times: Seq<UtcTime>, order: Seq<int>, x: int, k: int)
    requires
        0 <= k <= order.len(),
    ensures
        k <= time_slot_of(times, order, x, k) <= order.len(),
        forall|i: int|
            k <= i < time_slot_of(times, order, x, k) ==> !earlier(times[x], times[#[trigger] order[i]]),
        time_slot_of(times, order, x, k) < order.len() ==> earlier(
            times[x],
            times[order[time_slot_of(times, order, x, k)]],
        ),
    decreases order.len() - k,
{
    if k < order.len() && !earlier(times[x], times[order[k]]) {
        lemma_time_slot_of(times, order, x, k + 1);
    }
}

/// The order by time lists each position once, and no position comes after
/// one made later.
pub proof fn lemma_time_order_sorted(times: Seq<UtcTime>)
    ensures
        time_order(times).len() == times.len(),
        time_order(times).to_set() == Set::new(|i: int| 0 <= i < times.len()),
        forall|a: int, b: int|
            0 <= a < b < times.len() ==> !earlier(
                times[#[trigger] time_order(times)[b]],
                times[#[trigger] time_order(times)[a]],
            ),
    decreases times.len(),
{
    if times.len() > 0 {
        let u = times.drop_last();
        lemma_time_order_sorted(u);
        let o = time_order(u);
        let x = times.len() - 1;
        lemma_time_slot_of(times, o, x, 0);
        let p = time_slot_of(times, o, x, 0);
        let n = o.insert(p, x);
        assert forall|k: int| 0 <= k < o.len() implies 0 <= #[trigger] o[k] < u.len() by {
            assert(o.to_set().contains(o[k]));
        }
        assert forall|k: int| 0 <= k < o.len() implies times[#[trigger] o[k]] == u[o[k]] by {}
        assert forall|a: int, b: int| 0 <= a < b < n.len() implies !earlier(times[#[trigger] n[b]], times[#[trigger] n[a]]) by {
            if b < p {
                assert(n[a] == o[a] && n[b] == o[b]);
                assert(!earlier(u[o[b]], u[o[a]]));
            } else if b == p {
                assert(n[a] == o[a] && n[b] == x);
            } else if a < p {
                assert(n[a] == o[a] && n[b] == o[b - 1]);
                assert(!earlier(u[o[b - 1]], u[o[a]]));
            } else if a == p {
                assert(n[a] == x && n[b] == o[b - 1]);
                if b - 1 > p {
                    assert(!earlier(u[o[b - 1]], u[o[p]]));
                }
            } else {
                assert(n[a] == o[a - 1] && n[b] == o[b - 1]);
                assert(!earlier(u[o[b - 1]], u[o[a - 1]]));
            }
        }
        assert forall|i: int| n.to_set().contains(i) <==> 0 <= i < times.len() by {
            if n.to_set().contains(i) {
                let k = choose|k: int| 0 <= k < n.len() && n[k] == i;
                if k < p {
                    assert(n[k] == o[k]);
                } else if k > p {
                    assert(n[k] == o[k - 1]);
                }
            }
            if 0 <= i < times.len() {
                if i == x {
                    assert(n[p] == x);
                } else {
                    assert(o.to_set().contains(i));
                    let k = choose|k: int| 0 <= k < o.len() && o[k] == i;
                    if k < p {
                        assert(n[k] == i);
                    } else {
                        assert(n[k + 1] == i);
                    }
                }
            }
        }
        assert(n.to_set() =~= Set::new(|i: int| 0 <= i < times.len()));
    } else {
        assert(time_order(times).to_set() =~= Set::new(|i: int| 0 <= i < times.len()));
    }
}

/// The positions of `times` sorted by time, stably.
fn creation_order(times: &Vec<UtcTime>) -> (r: Vec<usize>)
    ensures
        r@.map_values(|i: usize| i as int) == time_order(times@),
        forall|k: int| 0 <= k < r@.len() ==> r@[k] < times@.len(),
        r@.len() == times@.len(),
{
    let mut out: Vec<usize> = Vec::new();
    let mut i: usize = 0;
    proof {
        assert(times@.take(0) =~= Seq::<UtcTime>::empty());
        assert(out@.map_values(|i: usize| i as int) =~= Seq::<int>::empty());
    }
    while i < times.len()
        invariant
            i <= times.len(),
            out@.len() == i,
            forall|k: int| 0 <= k < out@.len() ==> out@[k] < i,
            out@.map_values(|j: usize| j as int) == time_order(times@.take(i as int)),
        decreases times.len() - i,
    {
        let ghost t = times@.take(i + 1);
        let ghost o = out@.map_values(|j: usize| j as int);
        proof {
            assert(t.drop_last() =~= times@.take(i as int));
        }
        let mut p: usize = 0;
        proof {
            assert forall|k: int| 0 <= k < o.len() implies t[o[k]] == times@[o[k]] by {}
        }
        while p < out.len() && !is_earlier(times[i], times[out[p]])
            invariant
                p <= out.len(),
                i < times.len(),
                o == out@.map_values(|j: usize| j as int),
                forall|k: int| 0 <= k < out@.len() ==> out@[k] < i,
                t == times@.take(i + 1),
                time_slot_of(t, o, i as int, 0) == time_slot_of(t, o, i as int, p as int),
            decreases out.len() - p,
        {
            proof {
                assert(t[i as int] == times@[i as int]);
                assert(t[o[p as int]] == times@[out@[p as int] as int]);
            }
            p = p + 1;
        }
        proof {
            if p < out.len() {
                assert(t[i as int] == times@[i as int]);
                assert(t[o[p as int]] == times@[out@[p as int] as int]);
            }
        }
        out.insert(p, i);
        proof {
            assert(out@.map_values(|j: usize| j as int) =~= o.insert(p as int, i as int));
            assert forall|k: int| 0 <= k < out@.len() implies out@[k] < i + 1 by {
                if k < p {
                    assert(out@[k] == o[k]);
                } else if k > p {
                    assert(out@[k] as int == o[k - 1]);
                }
            }
        }
        i = i + 1;
    }
    proof {
        assert(times@.take(times.len() as int) =~= times@);
    }
    out
}

pub open spec fn claim_times(v: Seq<Claim>) -> Seq<UtcTime> {
    v.map_values(|c: Claim| c.created_at)
}

pub open spec fn fence_times(v: Seq<Fence>) -> Seq<UtcTime> {
    v.map_values(|f: Fence| f.created_at)
}

impl TerritoryStore {
    /// The claims read from the claim files, in order of creation (those
    /// made at the same time in the order read).
    pub fn order_claims(&self, claims: &Vec<Claim>) -> (r: Vec<Claim>)
        ensures
            claim_views(r@) == time_order(claim_times(claims@)).map_values(|k: int| claim_views(claims@)[k]),
    {
        let mut times: Vec<UtcTime> = Vec::new();
        let mut i: usize = 0;
        while i < claims.len()
            invariant
                i <= claims.len(),
                times@ == claim_times(claims@).take(i as int),
            decreases claims.len() - i,
        {
            times.push(claims[i].created_at);
            proof {
                assert(claim_times(claims@).take(i + 1) =~= claim_times(claims@).take(i as int).push(claims@[i as int].created_at));
            }
            i = i + 1;
        }
        proof {
            assert(claim_times(claims@).take(claims.len() as int) =~= claim_times(claims@));
        }
        let order = creation_order(&times);
        let ghost want = time_order(claim_times(claims@)).map_values(|k: int| claim_views(claims@)[k]);
        let mut out: Vec<Claim> = Vec::new();
        let mut j: usize = 0;
        while j < order.len()
            invariant
                j <= order.len(),
                order@.len() == claims@.len(),
                forall|k: int| 0 <= k < order@.len() ==> order@[k] < claims@.len(),
                order@.map_values(|x: usize| x as int) == time_order(claim_times(claims@)),
                want == time_order(claim_times(claims@)).map_values(|k: int| claim_views(claims@)[k]),
                claim_views(out@) == want.take(j as int),
            decreases order.len() - j,
        {
            let ghost before = out@;
            let c = claims[order[j]].duplicate();
            out.push(c);
            proof {
                assert(order@.map_values(|x: usize| x as int)[j as int] == order@[j as int] as int);
                assert(claim_views(out@) =~= claim_views(before).push(c@));
                assert(want.take(j + 1) =~= want.take(j as int).push(want[j as int]));
            }
            j = j + 1;
        }
        proof {
            assert(want.take(order.len() as int) =~= want);
        }
        out
    }

    /// The fences read from the fence files, in order of creation (those
    /// made at the same time in the order read).
    pub fn order_fences(&self, fences: &Vec<Fence>) -> (r: Vec<Fence>)
        ensures
            fence_views(r@) == time_order(fence_times(fences@)).map_values(|k: int| fence_views(fences@)[k]),
    {
        let mut times: Vec<UtcTime> = Vec::new();
        let mut i: usize = 0;
        while i < fences.len()
            invariant
                i <= fences.len(),
                times@ == fence_times(fences@).take(i as int),
            decreases fences.len() - i,
        {
            times.push(fences[i].created_at);
            proof {
                assert(fence_times(fences@).take(i + 1) =~= fence_times(fences@).take(i as int).push(fences@[i as int].created_at));
            }
            i = i + 1;
        }
        proof {
            assert(fence_times(fences@).take(fences.len() as int) =~= fence_times(fences@));
        }
        let order = creation_order(&times);
        let ghost want = time_order(fence_times(fences@)).map_values(|k: int| fence_views(fences@)[k]);
        let mut out: Vec<Fence> = Vec::new();
        let mut j: usize = 0;
        while j < order.len()
            invariant
                j <= order.len(),
                order@.len() == fences@.len(),
                forall|k: int| 0 <= k < order@.len() ==> order@[k] < fences@.len(),
                order@.map_values(|x: usize| x as int) == time_order(fence_times(fences@)),
                want == time_order(fence_times(fences@)).map_values(|k: int| fence_views(fences@)[k]),
                fence_views(out@) == want.take(j as int),
            decreases order.len() - j,
        {
            let ghost before = out@;
            let f = fences[order[j]].duplicate();
            out.push(f);
            proof {
                assert(order@.map_values(|x: usize| x as int)[j as int] == order@[j as int] as int);
                assert(fence_views(out@) =~= fence_views(before).push(f@));
                assert(want.take(j + 1) =~= want.take(j as int).push(want[j as int]));
            }
            j = j + 1;
        }
        proof {
            assert(want.take(order.len() as int) =~= want);
        }
        out
    }
}

} // verus!
