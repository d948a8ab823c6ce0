//! Agent liveness from heartbeat timestamps, and where heartbeats are kept.
use vstd::prelude::*;
use crate::clock::{parse_rfc3339_secs, rfc3339_at, rfc3339_secs, rfc3339_text, utc_now, UtcTime, MAX_UTC_SECS, MIN_UTC_SECS};
use crate::text::{opt_str_view, opt_to_owned, opt_view, path_join, path_joined};

verus! {

/// How recently an agent has been heard from.
#[derive(Debug, Clone, Copy, PartialEq, Eq, Structural)]
pub enum AgentLiveness {
    Active,
    Idle,
    Offline,
}

/// Seconds below which an agent counts as active.
pub const ACTIVE_THRESHOLD_SECS: u64 = 60;

/// Seconds up to which an agent counts as idle.
pub const IDLE_THRESHOLD_SECS: u64 = 300;

/// The liveness that a last heartbeat at `last` implies at time `now`: active
/// under a minute ago, idle up to five minutes ago, offline beyond that, when
/// there is no heartbeat, or when the heartbeat lies in the future.
pub open spec fn liveness_at(last: Option<u64>, now: u64) -> AgentLiveness {
    match last {
        Some(ts) => if now >= ts {
            if now - ts < ACTIVE_THRESHOLD_SECS {
                AgentLiveness::Active
            } else if now - ts <= IDLE_THRESHOLD_SECS {
                AgentLiveness::Idle
            } else {
                AgentLiveness::Offline
            }
        } else {
            AgentLiveness::Offline
        },
        None => AgentLiveness::Offline,
    }
}

/// Orders the liveness states: active above idle above offline.
pub open spec fn liveness_rank(l: AgentLiveness) -> int {
    match l {
        AgentLiveness::Active => 2,
        AgentLiveness::Idle => 1,
        AgentLiveness::Offline => 0,
    }
}

impl AgentLiveness {
    /// Classifies an agent by the age of its last heartbeat.
    pub fn evaluate(last_heartbeat: Option<u64>, now: u64) -> (r: Self)
        ensures
            r == liveness_at(last_heartbeat, now),
    {
        match last_heartbeat {
            Some(ts) => {
                if now >= ts {
                    let delta = now - ts;
                    if delta < ACTIVE_THRESHOLD_SECS {
                        AgentLiveness::Active
                    } else if delta <= IDLE_THRESHOLD_SECS {
                        AgentLiveness::Idle
                    } else {
                        AgentLiveness::Offline
                    }
                } else {
                    AgentLiveness::Offline
                }
            },
            None => AgentLiveness::Offline,
        }
    }
}

/// As time passes without a new heartbeat an agent never becomes more alive.
pub proof fn lemma_liveness_decays(last: Option<u64>, now1: u64, now2: u64)
    requires
        last matches Some(ts) ==> ts <= now1,
        now1 <= now2,
    ensures
        liveness_rank(liveness_at(last, now2)) <= liveness_rank(liveness_at(last, now1)),
{
}

/// Liveness depends only on the age of the heartbeat.
pub proof fn lemma_liveness_depends_on_age(ts1: u64, now1: u64, ts2: u64, now2: u64)
    requires
        ts1 <= now1,
        ts2 <= now2,
        now1 - ts1 == now2 - ts2,
    ensures
        liveness_at(Some(ts1), now1) == liveness_at(Some(ts2), now2),
{
}

/// One heartbeat of an agent.
#[derive(Debug, Clone)]
pub struct HeartbeatRecord {
    pub agent_name: String,
    pub timestamp: u64,
    pub timestamp_iso: String,
    pub pid: u32,
    pub dimension: Option<String>,
    pub message: Option<String>,
}

/// Where the heartbeats of the agents of one repository are kept.
pub struct HeartbeatSubsystem {
    agents_dir: String,
}

impl HeartbeatSubsystem {
    /// The directory `agents` under the repository's metadata directory.
    pub closed spec fn spec_agents_dir(&self) -> Seq<char> {
        self.agents_dir@
    }

    pub fn new(dft_dir: &str) -> (r: Self)
        ensures
            r.spec_agents_dir() == path_joined(dft_dir@, "agents"@),
    {
        HeartbeatSubsystem { agents_dir: path_join(dft_dir, "agents") }
    }

    /// The directory of one agent.
    pub fn agent_dir(&self, agent_name: &str) -> (r: String)
        ensures
            r@ == path_joined(self.spec_agents_dir(), agent_name@),
    {
        path_join(self.agents_dir.as_str(), agent_name)
    }

    /// The heartbeat file of one agent.
    pub fn heartbeat_file(&self, agent_name: &str) -> (r: String)
        ensures
            r@ == path_joined(
                path_joined(self.spec_agents_dir(), agent_name@),
                "heartbeat.json"@,
            ),
    {
        let dir = self.agent_dir(agent_name);
        path_join(dir.as_str(), "heartbeat.json")
    }
}

/// Whether `r` is the heartbeat of `agent_name` taken at `t` by process
/// `pid`: the time in seconds and as RFC 3339 text, with the dimension and
/// message given.
pub open spec fn heartbeat_taken(
    r: HeartbeatRecord,
    agent_name: Seq<char>,
    dimension: Option<Seq<char>>,
    message: Option<Seq<char>>,
    t: UtcTime,
    pid: u32,
) -> bool {
    &&& r.agent_name@ == agent_name
    &&& r.timestamp == t.secs as u64
    &&& r.timestamp_iso@ == rfc3339_text(t.secs, t.nanos)
    &&& r.pid == pid
    &&& opt_view(r.dimension) == dimension
    &&& opt_view(r.message) == message
}

/// The time of a heartbeat, if there is one.
pub open spec fn last_beat(record: Option<HeartbeatRecord>) -> Option<u64> {
    match record {
        Some(h) => Some(h.timestamp),
        None => None,
    }
}

/// The time of the last heartbeat that [`HeartbeatSubsystem::get`] finds:
/// that of the stored one, else that of a legacy record whose text reads as
/// RFC 3339, else none.
pub open spec fn found_beat(stored: Option<HeartbeatRecord>, legacy_last_heartbeat: Option<String>) -> Option<u64> {
    match stored {
        Some(h) => Some(h.timestamp),
        None => match legacy_last_heartbeat {
            Some(ts) => match rfc3339_secs(ts@) {
                Some(secs) => Some(secs as u64),
                None => None,
            },
            None => None,
        },
    }
}

/// A heartbeat taken less than a minute ago leaves its agent active.
pub proof fn lemma_fresh_heartbeat_active(
    r: HeartbeatRecord,
    agent_name: Seq<char>,
    dimension: Option<Seq<char>>,
    message: Option<Seq<char>>,
    t: UtcTime,
    pid: u32,
    now: u64,
)
    requires
        heartbeat_taken(r, agent_name, dimension, message, t, pid),
        0 <= t.secs,
        t.secs <= now < t.secs + ACTIVE_THRESHOLD_SECS,
    ensures
        liveness_at(last_beat(Some(r)), now) == AgentLiveness::Active,
{
}

/// With no readable heartbeat file and no legacy record that reads as
/// RFC 3339, an agent is offline.
pub proof fn lemma_unreadable_heartbeat_offline(
    stored: Option<HeartbeatRecord>,
    legacy_last_heartbeat: Option<String>,
    now: u64,
)
    requires
        stored is None,
        legacy_last_heartbeat matches Some(ts) ==> rfc3339_secs(ts@) is None,
    ensures
        liveness_at(found_beat(stored, legacy_last_heartbeat), now) == AgentLiveness::Offline,
{
}

impl HeartbeatSubsystem {
    /// The heartbeat of `agent_name` taken at `now` by process `pid`.
    pub fn record_at(&self, agent_name: &str, dimension: Option<&str>, message: Option<&str>, now: UtcTime, pid: u32) -> (r: HeartbeatRecord)
        requires
            0 <= now.secs <= MAX_UTC_SECS,
            now.nanos < 1_000_000_000,
        ensures
            heartbeat_taken(r, agent_name@, opt_str_view(dimension), opt_str_view(message), now, pid),
    {
        let iso = match rfc3339_at(now.secs, now.nanos) {
            Some(t) => t,
            None => {
                proof {
                    assert(MIN_UTC_SECS <= 0);
                }
                String::new()
            },
        };
        HeartbeatRecord {
            agent_name: String::from_str(agent_name),
            timestamp: now.secs as u64,
            timestamp_iso: iso,
            pid,
            dimension: opt_to_owned(dimension),
            message: opt_to_owned(message),
        }
    }

    /// The heartbeat of `agent_name` taken now by process `pid`.
    pub fn record(&self, agent_name: &str, dimension: Option<&str>, message: Option<&str>, pid: u32) -> (r: HeartbeatRecord)
        ensures
            exists|t: UtcTime|
                0 <= t.secs && heartbeat_taken(r, agent_name@, opt_str_view(dimension), opt_str_view(message), t, pid),
    {
        let now = utc_now();
        self.record_at(agent_name, dimension, message, now, pid)
    }

    /// The last heartbeat of `agent_name`: the one read from its heartbeat
    /// file when there is one; otherwise one made from its legacy record,
    /// when that holds a `last_heartbeat` text that reads as RFC 3339 (with
    /// the record's dimension, process 0 and no message); otherwise none.
    pub fn get(
        &self,
        agent_name: &str,
        stored: Option<HeartbeatRecord>,
        legacy_last_heartbeat: Option<String>,
        legacy_dimension: Option<String>,
    ) -> (r: Option<HeartbeatRecord>)
        ensures
            stored is Some ==> r == stored,
            stored is None ==> match legacy_last_heartbeat {
                Some(ts) => match rfc3339_secs(ts@) {
                    Some(secs) => r matches Some(h) && h.agent_name@ == agent_name@ && h.timestamp == secs as u64
                        && h.timestamp_iso@ == ts@ && h.pid == 0 && opt_view(h.dimension) == opt_view(
                        legacy_dimension,
                    ) && h.message is None,
                    None => r is None,
                },
                None => r is None,
            },
    {
        match stored {
            Some(h) => Some(h),
            None => match legacy_last_heartbeat {
                Some(ts) => match parse_rfc3339_secs(ts.as_str()) {
                    Some(secs) => Some(
                        HeartbeatRecord {
                            agent_name: String::from_str(agent_name),
                            timestamp: secs as u64,
                            timestamp_iso: ts,
                            pid: 0,
                            dimension: legacy_dimension,
                            message: None,
                        },
                    ),
                    None => None,
                },
                None => None,
            },
        }
    }

    /// How alive `agent_name` is at `now`, by the heartbeat that
    /// [`HeartbeatSubsystem::get`] finds for it.
    pub fn liveness_of(
        &self,
        agent_name: &str,
        stored: Option<HeartbeatRecord>,
        legacy_last_heartbeat: Option<String>,
        legacy_dimension: Option<String>,
        now: u64,
    ) -> (r: AgentLiveness)
        ensures
            r == liveness_at(found_beat(stored, legacy_last_heartbeat), now),
    {
        let found = self.get(agent_name, stored, legacy_last_heartbeat, legacy_dimension);
        let ts = match &found {
            Some(h) => Some(h.timestamp),
            None => None,
        };
        AgentLiveness::evaluate(ts, now)
    }

    /// How alive an agent with this last heartbeat is now.
    pub fn liveness(&self, record: &Option<HeartbeatRecord>) -> (r: AgentLiveness)
        ensures
            exists|now: u64| r == #[trigger] liveness_at(last_beat(*record), now),
    {
        let now = utc_now();
        let ts = match record {
            Some(h) => Some(h.timestamp),
            None => None,
        };
        AgentLiveness::evaluate(ts, now.secs as u64)
    }
}

} // verus!
