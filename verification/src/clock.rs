//! Points in UTC time as plain numbers: seconds since the Unix epoch and the
//! nanoseconds past that second.
use vstd::prelude::*;

verus! {

/// A point in UTC time.
#[derive(Debug, Clone, Copy, PartialEq, Eq, Structural)]
pub struct UtcTime {
    pub secs: i64,
    pub nanos: u32,
}

/// The last second that `chrono` can represent (262142-12-31T23:59:59Z).
pub const MAX_UTC_SECS: i64 = 8_210_266_876_799;

/// The first second that `chrono` can represent (-262143-01-01T00:00:00Z).
pub const MIN_UTC_SECS: i64 = -8_334_601_315_200;

/// The longest span, in seconds, that `chrono::Duration::seconds` accepts.
pub const MAX_SPAN_SECS: u64 = 9_223_372_036_854_775;

/// Whether `a` comes strictly before `b`.
pub open spec fn earlier(a: UtcTime, b: UtcTime) -> bool {
    a.secs < b.secs || (a.secs == b.secs && a.nanos < b.nanos)
}

/// Whether `a` comes strictly before `b`.
pub fn is_earlier(a: UtcTime, b: UtcTime) -> (r: bool)
    ensures
        r == earlier(a, b),
{
    a.secs < b.secs || (a.secs == b.secs && a.nanos < b.nanos)
}

/// Whether `secs` seconds can be added to `t` without leaving the range of
/// representable times.
pub open spec fn can_add_secs(t: UtcTime, secs: u64) -> bool {
    secs <= MAX_SPAN_SECS && t.secs + secs <= MAX_UTC_SECS
}

/// `t` moved `secs` seconds later.
pub open spec fn plus_secs(t: UtcTime, secs: u64) -> UtcTime {
    UtcTime { secs: (t.secs + secs) as i64, nanos: t.nanos }
}

/// `t` moved `secs` seconds later.
pub fn add_secs(t: UtcTime, secs: u64) -> (r: UtcTime)
    requires
        can_add_secs(t, secs),
    ensures
        r == plus_secs(t, secs),
{
    UtcTime { secs: t.secs + secs as i64, nanos: t.nanos }
}

/// Whether `chrono` can represent the time `secs` seconds after the epoch.
pub open spec fn representable(secs: i64) -> bool {
    MIN_UTC_SECS <= secs <= MAX_UTC_SECS
}

/// The current time from the system clock (`chrono::Utc::now`), as seconds
/// since the epoch and the nanoseconds past that second. Nothing is promised
/// of the value beyond its range: `Utc::now` builds it from the whole seconds
/// and the nanoseconds since the epoch of a `SystemTime`, through
/// `DateTime::from_timestamp(..).unwrap()`, so it lies between the epoch and
/// the last representable second, with fewer than a billion nanoseconds.
#[verifier::external_body]
pub(crate) fn utc_now() -> (r: UtcTime)
    ensures
        0 <= r.secs <= MAX_UTC_SECS,
        r.nanos < 1_000_000_000,
{
    let now = chrono::Utc::now();
    UtcTime { secs: now.timestamp(), nanos: now.timestamp_subsec_nanos() }
}

/// The RFC 3339 text that `chrono` writes for the time `secs` seconds and
/// `nanos` nanoseconds after the epoch.
pub uninterp spec fn rfc3339_text(secs: i64, nanos: u32) -> Seq<char>;

/// `chrono::DateTime::<Utc>::from_timestamp(secs, nanos)`, written out by
/// `to_rfc3339`. `from_timestamp` returns `None` for seconds outside the
/// representable range; within it, and with fewer than a billion
/// nanoseconds, it returns the time, and `to_rfc3339` writes it (as the text
/// named `rfc3339_text`; its form is not stated here).
#[verifier::external_body]
pub(crate) fn rfc3339_at(secs: i64, nanos: u32) -> (r: Option<String>)
    ensures
        representable(secs) && nanos < 1_000_000_000 ==> r is Some,
        !representable(secs) ==> r is None,
        r matches Some(t) ==> t@ == rfc3339_text(secs, nanos),
{
    match chrono::DateTime::<chrono::Utc>::from_timestamp(secs, nanos) {
        Some(t) => Some(t.to_rfc3339()),
        None => None,
    }
}

/// The point in time `chrono` makes of `secs` seconds and `nanos`
/// nanoseconds after the epoch: none outside the representable range, and
/// none with a billion nanoseconds or more except in the last second of a
/// minute (a leap second), up to two billion.
pub open spec fn stamp_of(secs: i64, nanos: u32) -> Option<UtcTime> {
    if representable(secs) && (nanos < 1_000_000_000 || (nanos < 2_000_000_000 && secs % 60 == 59)) {
        Some(UtcTime { secs, nanos })
    } else {
        None
    }
}

/// `chrono::DateTime::<Utc>::from_timestamp(secs, nanos)`, read back as
/// seconds and nanoseconds: `from_timestamp` refuses a day outside the
/// representable dates, two billion nanoseconds or more, and a billion or
/// more outside the last second of a minute; otherwise the time it makes
/// holds exactly the seconds and nanoseconds given.
#[verifier::external_body]
pub(crate) fn utc_at(secs: i64, nanos: u32) -> (r: Option<UtcTime>)
    ensures
        r == stamp_of(secs, nanos),
{
    match chrono::DateTime::<chrono::Utc>::from_timestamp(secs, nanos) {
        Some(t) => Some(UtcTime { secs: t.timestamp(), nanos: t.timestamp_subsec_nanos() }),
        None => None,
    }
}

/// Whether the time `secs` seconds after the epoch falls in the years 0 to
/// 9999, the only ones RFC 2822 can write.
pub open spec fn rfc2822_year(secs: i64) -> bool {
    -62_167_219_200 <= secs <= 253_402_300_799
}

/// The RFC 2822 text that `chrono` writes for the time `secs` seconds after
/// the epoch.
pub uninterp spec fn rfc2822_text(secs: i64) -> Seq<char>;

/// `chrono::DateTime::<Utc>::from_timestamp(secs, 0)`, written out by
/// `to_rfc2822`: `None` for seconds outside the representable range; the
/// text (named `rfc2822_text`; its form is not stated here) otherwise.
/// `to_rfc2822` panics on a year outside 0 to 9999, which is left out.
#[verifier::external_body]
pub(crate) fn rfc2822_at(secs: i64) -> (r: Option<String>)
    requires
        representable(secs) ==> rfc2822_year(secs),
    ensures
        representable(secs) ==> r is Some,
        !representable(secs) ==> r is None,
        r matches Some(t) ==> t@ == rfc2822_text(secs),
{
    match chrono::DateTime::<chrono::Utc>::from_timestamp(secs, 0) {
        Some(t) => Some(t.to_rfc2822()),
        None => None,
    }
}

/// The seconds since the epoch of the time that an RFC 3339 text gives, as
/// `chrono` reads it, or none where it reads no time.
pub uninterp spec fn rfc3339_secs(s: Seq<char>) -> Option<i64>;

/// `chrono::DateTime::parse_from_rfc3339`, then `timestamp`: the seconds
/// since the epoch of the time the text gives, or none where `chrono`
/// refuses the text. What it accepts is not stated here; the result is named
/// `rfc3339_secs`.
#[verifier::external_body]
pub(crate) fn parse_rfc3339_secs(s: &str) -> (r: Option<i64>)
    ensures
        r == rfc3339_secs(s@),
{
    match chrono::DateTime::parse_from_rfc3339(s) {
        Ok(t) => Some(t.timestamp()),
        Err(_) => None,
    }
}

/// The RFC 3339 text of the time `secs` seconds after the epoch, or of the
/// current time where `chrono` cannot represent it.
pub fn rfc3339_or_now(secs: i64) -> (r: String)
    ensures
        representable(secs) ==> r@ == rfc3339_text(secs, 0),
        exists|s: i64, n: u32| r@ == rfc3339_text(s, n),
{
    match rfc3339_at(secs, 0) {
        Some(t) => t,
        None => {
            let now = utc_now();
            match rfc3339_at(now.secs, now.nanos) {
                Some(t) => t,
                None => {
                    proof {
                        assert(false);
                    }
                    String::new()
                },
            }
        },
    }
}

} // verus!
