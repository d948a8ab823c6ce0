//! Fences: exclusionary write barriers on the paths a glob matches.
use vstd::prelude::*;
use crate::clock::{add_secs, is_earlier, UtcTime};
use crate::territory::claim::{expiry, in_force, make_territory_id, territory_id, ttl_addable};
use crate::territory::glob::{glob_matches, matches_glob};
use crate::text::{clone_opt_string, opt_view, str_eq};

verus! {

/// A write barrier on the paths a glob matches, optionally owned by one
/// dimension, which it does not bar.
#[derive(Debug, Clone)]
pub struct Fence {
    pub id: String,
    pub path_glob: String,
    pub owner_dimension: Option<String>,
    pub agent_id: Option<String>,
    pub hard: bool,
    pub created_at: UtcTime,
    pub expires_at: Option<UtcTime>,
    pub reason: Option<String>,
}

/// The contents of a fence.
pub struct FenceView {
    pub id: Seq<char>,
    pub path_glob: Seq<char>,
    pub owner_dimension: Option<Seq<char>>,
    pub agent_id: Option<Seq<char>>,
    pub hard: bool,
    pub created_at: UtcTime,
    pub expires_at: Option<UtcTime>,
    pub reason: Option<Seq<char>>,
}

impl View for Fence {
    type V = FenceView;

    open spec fn view(&self) -> FenceView {
        FenceView {
            id: self.id@,
            path_glob: self.path_glob@,
            owner_dimension: opt_view(self.owner_dimension),
            agent_id: opt_view(self.agent_id),
            hard: self.hard,
            created_at: self.created_at,
            expires_at: self.expires_at,
            reason: opt_view(self.reason),
        }
    }
}

/// Whether a change to `path` made in `dimension` breaches the fence: the
/// fence's owner dimension is never barred, everyone else is on the paths
/// its glob matches.
pub open spec fn fence_bars(f: FenceView, path: Seq<char>, dimension: Seq<char>) -> bool {
    if f.owner_dimension == Some(dimension) {
        false
    } else {
        glob_matches(f.path_glob, path)
    }
}

impl Fence {
    /// A fence made at `created_at`, whose id is `fence_` and the start of the
    /// hex digest of its path, owner and agent; it expires `ttl_seconds` after
    /// it was made, if a time to live is given.
    pub fn new(
        path_glob: String,
        owner_dimension: Option<String>,
        agent_id: Option<String>,
        hard: bool,
        ttl_seconds: Option<u64>,
        reason: Option<String>,
        created_at: UtcTime,
        digest_hex: &str,
    ) -> (r: Self)
        requires
            digest_hex@.len() >= 16,
            ttl_addable(created_at, ttl_seconds),
        ensures
            r@ == (FenceView {
                id: territory_id("fence_"@, digest_hex@),
                path_glob: path_glob@,
                owner_dimension: opt_view(owner_dimension),
                agent_id: opt_view(agent_id),
                hard: hard,
                created_at: created_at,
                expires_at: expiry(created_at, ttl_seconds),
                reason: opt_view(reason),
            }),
    {
        let expires_at = match ttl_seconds {
            Some(secs) => Some(add_secs(created_at, secs)),
            None => None,
        };
        Fence {
            id: make_territory_id("fence_", digest_hex),
            path_glob,
            owner_dimension,
            agent_id,
            hard,
            created_at,
            expires_at,
            reason,
        }
    }

    /// Whether the fence is still in force at `now`.
    pub fn is_active(&self, now: UtcTime) -> (r: bool)
        ensures
            r == in_force(self.expires_at, now),
    {
        match self.expires_at {
            Some(exp) => is_earlier(now, exp),
            None => true,
        }
    }

    /// Whether a change to `path` in `modifying_dimension` breaches the fence.
    pub fn is_violated_by(&self, path: &str, modifying_dimension: &str) -> (r: bool)
        ensures
            r == fence_bars(self@, path@, modifying_dimension@),
    {
        if let Some(owner) = &self.owner_dimension {
            if str_eq(owner.as_str(), modifying_dimension) {
                return false;
            }
        }
        matches_glob(self.path_glob.as_str(), path)
    }

    /// A copy with the same contents.
    pub fn duplicate(&self) -> (r: Self)
        ensures
            r@ == self@,
    {
        Fence {
            id: self.id.clone(),
            path_glob: self.path_glob.clone(),
            owner_dimension: clone_opt_string(&self.owner_dimension),
            agent_id: clone_opt_string(&self.agent_id),
            hard: self.hard,
            created_at: self.created_at,
            expires_at: self.expires_at,
            reason: clone_opt_string(&self.reason),
        }
    }
}

/// A fence never bars its own owner dimension.
pub proof fn lemma_owner_never_barred(f: FenceView, path: Seq<char>)
    requires
        f.owner_dimension is Some,
    ensures
        !fence_bars(f, path, f.owner_dimension->0),
{
}

} // verus!
