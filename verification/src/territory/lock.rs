//! The territory lock: who holds it, and when a waiter gives up.
use vstd::prelude::*;
use crate::text::{debug_opt_string, debug_text, decimal, opt_view, u64_to_decimal};

verus! {

/// What the holder of the territory lock writes into the lock file.
#[derive(Debug, Clone)]
pub struct TerritoryLockInfo {
    pub pid: u32,
    pub agent_id: Option<String>,
    pub operation: String,
    pub acquired_at: String,
}

/// The text `{:?}` gives for an optional number.
pub open spec fn debug_opt_number(o: Option<u32>) -> Seq<char> {
    match o {
        Some(n) => "Some("@ + decimal(n as nat) + ")"@,
        None => "None"@,
    }
}

/// The message of a waiter that gave up after `timeout_secs` seconds, with
/// what the lock file said of its holder where it could be read.
pub open spec fn contention_text(info: Option<(u32, Option<Seq<char>>, Seq<char>)>, timeout_secs: u64) -> Seq<char> {
    "Territory lock contention held by PID "@ + debug_opt_number(
        match info {
            Some(i) => Some(i.0),
            None => None,
        },
    ) + " (agent: "@ + debug_text(
        match info {
            Some(i) => i.1,
            None => None,
        },
    ) + ", op: "@ + debug_text(
        match info {
            Some(i) => Some(i.2),
            None => None,
        },
    ) + "): timed out after "@ + decimal(timeout_secs as nat) + "s"@
}

pub open spec fn info_view(info: Option<TerritoryLockInfo>) -> Option<(u32, Option<Seq<char>>, Seq<char>)> {
    match info {
        Some(i) => Some((i.pid, opt_view(i.agent_id), i.operation@)),
        None => None,
    }
}

/// The message of a waiter that gave up on the lock.
pub fn contention_message(info: &Option<TerritoryLockInfo>, timeout_secs: u64) -> (r: String)
    ensures
        r@ == contention_text(info_view(*info), timeout_secs),
{
    let mut m = String::from_str("Territory lock contention held by PID ");
    match info {
        Some(i) => {
            m.append("Some(");
            let p = u64_to_decimal(i.pid as u64);
            m.append(p.as_str());
            m.append(")");
        },
        None => {
            m.append("None");
        },
    }
    m.append(" (agent: ");
    let agent = match info {
        Some(i) => match &i.agent_id {
            Some(a) => Some(a.clone()),
            None => None,
        },
        None => None,
    };
    let a = debug_opt_string(&agent);
    m.append(a.as_str());
    m.append(", op: ");
    let op = match info {
        Some(i) => Some(i.operation.clone()),
        None => None,
    };
    let o = debug_opt_string(&op);
    m.append(o.as_str());
    m.append("): timed out after ");
    let t = u64_to_decimal(timeout_secs);
    m.append(t.as_str());
    m.append("s");
    m
}

/// Whether a waiter that has waited `elapsed_ms` milliseconds gives up,
/// with a timeout of `timeout_ms`.
pub fn gives_up(elapsed_ms: u64, timeout_ms: u64) -> (r: bool)
    ensures
        r == (elapsed_ms >= timeout_ms),
{
    elapsed_ms >= timeout_ms
}

} // verus!
