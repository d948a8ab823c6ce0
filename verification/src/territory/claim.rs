//! Territory claims: a dimension's (and optionally an agent's) hold on the
//! paths a glob matches, with an optional time to live.
use vstd::prelude::*;
use crate::clock::{add_secs, can_add_secs, earlier, is_earlier, plus_secs, UtcTime};
use crate::text::{
    chars_of, clone_opt_string, is_decimal_digit, join2, opt_view, parse_u64, string_of,
    take_chars, trim_chars, trimmed, u64_parse, IntErrorKind,
};

verus! {

/// The id of a claim or fence: a prefix followed by the first 16 characters of
/// the hex digest of its identifying text.
pub open spec fn territory_id(prefix: Seq<char>, digest_hex: Seq<char>) -> Seq<char> {
    prefix + digest_hex.take(16)
}

/// Builds `prefix` followed by the first 16 characters of `digest_hex`.
pub fn make_territory_id(prefix: &str, digest_hex: &str) -> (r: String)
    requires
        digest_hex@.len() >= 16,
    ensures
        r@ == territory_id(prefix@, digest_hex@),
{
    let d = chars_of(digest_hex);
    let head = take_chars(&d, 16);
    let head_s = string_of(&head);
    join2(prefix, head_s.as_str())
}

/// The moment a time to live runs out, if there is one.
pub open spec fn expiry(created_at: UtcTime, ttl_seconds: Option<u64>) -> Option<UtcTime> {
    match ttl_seconds {
        Some(secs) => Some(plus_secs(created_at, secs)),
        None => None,
    }
}

/// Whether a time to live can be added to its start without leaving the
/// range of representable times.
pub open spec fn ttl_addable(created_at: UtcTime, ttl_seconds: Option<u64>) -> bool {
    ttl_seconds matches Some(secs) ==> can_add_secs(created_at, secs)
}

/// The signed distance from `from` to `to`, in nanoseconds.
pub open spec fn nanos_between(from: UtcTime, to: UtcTime) -> int {
    (to.secs - from.secs) * 1_000_000_000 + to.nanos - from.nanos
}

/// Whether something that expires at `expires_at` is still in force at `now`.
pub open spec fn in_force(expires_at: Option<UtcTime>, now: UtcTime) -> bool {
    match expires_at {
        Some(exp) => earlier(now, exp),
        None => true,
    }
}

/// A dimension's (and optionally an agent's) hold on the paths a glob matches.
#[derive(Debug, Clone)]
pub struct Claim {
    pub id: String,
    pub path_glob: String,
    pub agent_id: Option<String>,
    pub dimension: String,
    pub exclusive: bool,
    pub created_at: UtcTime,
    pub ttl_seconds: Option<u64>,
    pub expires_at: Option<UtcTime>,
    pub description: Option<String>,
}

/// The contents of a claim.
pub struct ClaimView {
    pub id: Seq<char>,
    pub path_glob: Seq<char>,
    pub agent_id: Option<Seq<char>>,
    pub dimension: Seq<char>,
    pub exclusive: bool,
    pub created_at: UtcTime,
    pub ttl_seconds: Option<u64>,
    pub expires_at: Option<UtcTime>,
    pub description: Option<Seq<char>>,
}

impl View for Claim {
    type V = ClaimView;

    open spec fn view(&self) -> ClaimView {
        ClaimView {
            id: self.id@,
            path_glob: self.path_glob@,
            agent_id: opt_view(self.agent_id),
            dimension: self.dimension@,
            exclusive: self.exclusive,
            created_at: self.created_at,
            ttl_seconds: self.ttl_seconds,
            expires_at: self.expires_at,
            description: opt_view(self.description),
        }
    }
}

impl Claim {
    /// A claim made at `created_at`, whose id is `claim_` and the start of the
    /// hex digest of its path, dimension and agent; it expires `ttl_seconds`
    /// after it was made, if a time to live is given.
    pub fn new(
        path_glob: String,
        dimension: String,
        agent_id: Option<String>,
        ttl_seconds: Option<u64>,
        exclusive: bool,
        created_at: UtcTime,
        digest_hex: &str,
    ) -> (r: Self)
        requires
            digest_hex@.len() >= 16,
            ttl_addable(created_at, ttl_seconds),
        ensures
            r@ == (ClaimView {
                id: territory_id("claim_"@, digest_hex@),
                path_glob: path_glob@,
                agent_id: opt_view(agent_id),
                dimension: dimension@,
                exclusive: exclusive,
                created_at: created_at,
                ttl_seconds: ttl_seconds,
                expires_at: expiry(created_at, ttl_seconds),
                description: None,
            }),
    {
        let expires_at = match ttl_seconds {
            Some(secs) => Some(add_secs(created_at, secs)),
            None => None,
        };
        Claim {
            id: make_territory_id("claim_", digest_hex),
            path_glob,
            agent_id,
            dimension,
            exclusive,
            created_at,
            ttl_seconds,
            expires_at,
            description: None,
        }
    }

    /// Whether the claim is still in force at `now`.
    pub fn is_active(&self, now: UtcTime) -> (r: bool)
        ensures
            r == in_force(self.expires_at, now),
    {
        match self.expires_at {
            Some(exp) => is_earlier(now, exp),
            None => true,
        }
    }

    /// Time left before the claim expires, in nanoseconds (negative once it
    /// has expired); `None` for a claim without expiry.
    pub fn remaining_ttl(&self, now: UtcTime) -> (r: Option<i128>)
        ensures
            r == match self.expires_at {
                Some(exp) => Some(nanos_between(now, exp) as i128),
                None => None::<i128>,
            },
    {
        match self.expires_at {
            Some(exp) => {
                let secs: i128 = exp.secs as i128 - now.secs as i128;
                let nanos: i128 = exp.nanos as i128 - now.nanos as i128;
                Some(secs * 1_000_000_000 + nanos)
            },
            None => None,
        }
    }

    /// A copy with the same contents.
    pub fn duplicate(&self) -> (r: Self)
        ensures
            r@ == self@,
    {
        Claim {
            id: self.id.clone(),
            path_glob: self.path_glob.clone(),
            agent_id: clone_opt_string(&self.agent_id),
            dimension: self.dimension.clone(),
            exclusive: self.exclusive,
            created_at: self.created_at,
            ttl_seconds: self.ttl_seconds,
            expires_at: self.expires_at,
            description: clone_opt_string(&self.description),
        }
    }
}

/// A claim with a zero time to live has already run out when it is made.
pub proof fn lemma_zero_ttl_expires_at_once(created_at: UtcTime, now: UtcTime)
    requires
        !earlier(now, created_at),
        can_add_secs(created_at, 0),
    ensures
        !in_force(expiry(created_at, Some(0u64)), now),
{
}

/// A claim without a time to live never runs out.
pub proof fn lemma_no_ttl_never_expires(created_at: UtcTime, now: UtcTime)
    ensures
        in_force(expiry(created_at, None), now),
{
}

/// The message `u64::from_str` gives for each kind of failure.
pub open spec fn int_error_text(k: IntErrorKind) -> Seq<char> {
    match k {
        IntErrorKind::Empty => "cannot parse integer from empty string"@,
        IntErrorKind::InvalidDigit => "invalid digit found in string"@,
        IntErrorKind::PosOverflow => "number too large to fit in target type"@,
    }
}

/// The message for a failed integer parse.
pub fn int_error_message(k: IntErrorKind) -> (m: String)
    ensures
        m@ == int_error_text(k),
{
    match k {
        IntErrorKind::Empty => String::from_str("cannot parse integer from empty string"),
        IntErrorKind::InvalidDigit => String::from_str("invalid digit found in string"),
        IntErrorKind::PosOverflow => String::from_str("number too large to fit in target type"),
    }
}

/// Seconds per unit for a TTL suffix (`s`, `m`, `h`, `d`, either case); 0 when
/// `c` is no unit.
pub open spec fn ttl_unit(c: char) -> int {
    if c == 's' || c == 'S' {
        1
    } else if c == 'm' || c == 'M' {
        60
    } else if c == 'h' || c == 'H' {
        3600
    } else if c == 'd' || c == 'D' {
        86400
    } else {
        0
    }
}

/// The digits of a trimmed TTL text and the seconds each of them stands for.
pub open spec fn ttl_split(t: Seq<char>) -> (Seq<char>, int) {
    if t.len() > 0 && ttl_unit(t.last()) > 0 {
        (t.drop_last(), ttl_unit(t.last()))
    } else {
        (t, 1)
    }
}

/// What a TTL text such as `30s`, `15m`, `2h`, `1d` or `90` denotes, in seconds,
/// or the message that explains why it denotes nothing.
pub open spec fn ttl_meaning(s: Seq<char>) -> Result<int, Seq<char>> {
    let t = trimmed(s);
    if t.len() == 0 {
        Err("Empty TTL string"@)
    } else {
        let (digits, unit) = ttl_split(t);
        match u64_parse(digits) {
            Ok(v) => Ok(v * unit),
            Err(k) => Err(int_error_text(k)),
        }
    }
}

/// A TTL text whose number, scaled by its unit, still fits in a `u64`.
pub open spec fn ttl_in_range(s: Seq<char>) -> bool {
    ttl_meaning(s) matches Ok(v) ==> v <= u64::MAX
}

/// Parses TTL string such as "30s", "15m", "2h", "1d", or numeric seconds.
pub fn parse_ttl_string(s: &str) -> (r: Result<u64, String>)
    requires
        ttl_in_range(s@),
    ensures
        match (r, ttl_meaning(s@)) {
            (Ok(n), Ok(v)) => n == v,
            (Err(m), Err(e)) => m@ == e,
            _ => false,
        },
{
    let t = trim_chars(&chars_of(s));
    if t.len() == 0 {
        return Err(String::from_str("Empty TTL string"));
    }
    let last = t[t.len() - 1];
    let unit: u64 = if last == 's' || last == 'S' {
        1
    } else if last == 'm' || last == 'M' {
        60
    } else if last == 'h' || last == 'H' {
        3600
    } else if last == 'd' || last == 'D' {
        86400
    } else {
        0
    };
    let digits = if unit > 0 {
        take_chars(&t, t.len() - 1)
    } else {
        t.clone()
    };
    let mult: u64 = if unit > 0 {
        unit
    } else {
        1
    };
    proof {
        assert(ttl_unit(t@.last()) == unit);
        if unit > 0 {
            assert(digits@ == t@.drop_last());
        }
    }
    match parse_u64(&digits) {
        Ok(n) => {
            proof {
                assert(n * mult <= u64::MAX);
            }
            Ok(n * mult)
        },
        Err(k) => Err(int_error_message(k)),
    }
}

proof fn lemma_trim_plain(s: Seq<char>)
    requires
        s.len() > 0,
        is_decimal_digit(s[0]),
        !crate::text::is_white_space(s.last()),
    ensures
        trimmed(s) == s,
{
    assert(crate::text::trim_start_ws(s) == s);
}

/// A number with a unit suffix means the number times the seconds of the unit:
/// `{n}s` is `n`, `{n}m` is `60 n`, `{n}h` is `3600 n`, `{n}d` is `86400 n`.
pub proof fn lemma_ttl_unit_scaling(digits: Seq<char>, unit: char)
    requires
        digits.len() > 0,
        forall|i: int| 0 <= i < digits.len() ==> is_decimal_digit(#[trigger] digits[i]),
        ttl_unit(unit) > 0,
    ensures
        ttl_meaning(digits.push(unit)) == (match ttl_meaning(digits) {
            Ok(v) => Ok::<int, Seq<char>>(v * ttl_unit(unit)),
            Err(e) => Err(e),
        }),
{
    let s = digits.push(unit);
    assert(s[0] == digits[0]);
    lemma_trim_plain(s);
    assert(digits[0] == digits[0]);
    assert(is_decimal_digit(digits.last()));
    lemma_trim_plain(digits);
    assert(s.drop_last() =~= digits);
    assert(digits[0] != '+' && digits[0] != '-');
}

} // verus!
