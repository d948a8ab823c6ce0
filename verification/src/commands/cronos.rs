//! `dft cronos`: reading the subcommand and its options, and applying a
//! configuration request to the daemon's settings.
//!
//! Whether a text names a sync strategy is for the sync engine to say: the
//! caller hands over, for each word, whether the word itself names one and
//! whether what follows `--strategy=` in it does.
use vstd::prelude::*;
use crate::cli::CronosArgs;
use crate::clock::UtcTime;
use crate::commands::agent::any_is;
use crate::text::{
    chars_of, opt_view, parse_u64, str_eq, str_skip, str_starts_with, string_of, strs_view, u64_parse,
};

verus! {

// ---------------------------------------------------------------------------
// Interval values
// ---------------------------------------------------------------------------

/// `s` without the run of `c` at its end (`str::trim_end_matches` with a char).
pub open spec fn trim_end_char(s: Seq<char>, c: char) -> Seq<char>
    decreases s.len(),
{
    if s.len() > 0 && s.last() == c {
        trim_end_char(s.drop_last(), c)
    } else {
        s
    }
}

/// What an interval text such as `30`, `30s` or `5m` stands for, in seconds.
pub enum IntervalValue {
    /// The text holds no number.
    NotANumber,
    /// So many seconds.
    Secs(u64),
    /// Minutes whose count of seconds does not fit in a `u64`.
    Overflow,
}

/// The seconds an interval text stands for: trailing `s` and `m` characters
/// are dropped, the rest is read as a `u64`, and a text ending in `m` counts
/// minutes.
pub open spec fn interval_value(raw: Seq<char>) -> IntervalValue {
    match u64_parse(trim_end_char(trim_end_char(raw, 's'), 'm')) {
        Ok(n) => if raw.len() > 0 && raw.last() == 'm' {
            if n * 60 <= u64::MAX {
                IntervalValue::Secs((n * 60) as u64)
            } else {
                IntervalValue::Overflow
            }
        } else {
            IntervalValue::Secs(n as u64)
        },
        Err(_) => IntervalValue::NotANumber,
    }
}

fn trim_end_chars(v: &Vec<char>, c: char) -> (r: Vec<char>)
    ensures
        r@ == trim_end_char(v@, c),
{
    let mut n: usize = v.len();
    proof {
        assert(v@.take(n as int) =~= v@);
    }
    while n > 0 && v[n - 1] == c
        invariant
            n <= v.len(),
            trim_end_char(v@, c) == trim_end_char(v@.take(n as int), c),
        decreases n,
    {
        proof {
            assert(v@.take(n as int).drop_last() =~= v@.take(n - 1));
        }
        n = n - 1;
    }
    let mut r: Vec<char> = Vec::new();
    let mut i: usize = 0;
    while i < n
        invariant
            i <= n <= v.len(),
            r@ == v@.take(i as int),
        decreases n - i,
    {
        r.push(v[i]);
        proof {
            assert(v@.take(i + 1) =~= v@.take(i as int).push(v@[i as int]));
        }
        i = i + 1;
    }
    r
}

/// Reads an interval text.
pub fn read_interval(raw: &str) -> (r: IntervalValue)
    ensures
        r == interval_value(raw@),
{
    let v = chars_of(raw);
    let t = trim_end_chars(&trim_end_chars(&v, 's'), 'm');
    match parse_u64(&t) {
        Ok(n) => {
            if v.len() > 0 && v[v.len() - 1] == 'm' {
                if n <= 307_445_734_561_825_860 {
                    IntervalValue::Secs(n * 60)
                } else {
                    IntervalValue::Overflow
                }
            } else {
                IntervalValue::Secs(n)
            }
        },
        Err(_) => IntervalValue::NotANumber,
    }
}

// ---------------------------------------------------------------------------
// The options of `start` and of the worker
// ---------------------------------------------------------------------------

/// For each word: whether it names a sync strategy, and whether what
/// follows `--strategy=` in it does.
pub struct StrategyChecks {
    pub whole: Vec<bool>,
    pub after_eq: Vec<bool>,
}

/// The interval and the strategy that the options of `start` (with
/// `eq_forms`) or of the worker (without) give, reading from `i` on; a
/// value that is not a number or not a strategy is passed over, so the last
/// good one wins. Nothing when minutes overflow, where the count of seconds
/// is taken.
pub open spec fn scan_daemon(
    toks: Seq<Seq<char>>,
    whole: Seq<bool>,
    after_eq: Seq<bool>,
    eq_forms: bool,
    i: int,
    interval: u64,
    strategy: Option<Seq<char>>,
) -> Option<(u64, Option<Seq<char>>)>
    decreases toks.len() - i,
{
    if i < 0 || i >= toks.len() {
        Some((interval, strategy))
    } else {
        let t = toks[i];
        if t == "--interval"@ && i + 1 < toks.len() {
            match interval_value(toks[i + 1]) {
                IntervalValue::Secs(n) => scan_daemon(toks, whole, after_eq, eq_forms, i + 2, n, strategy),
                IntervalValue::NotANumber => scan_daemon(
                    toks,
                    whole,
                    after_eq,
                    eq_forms,
                    i + 2,
                    interval,
                    strategy,
                ),
                IntervalValue::Overflow => None,
            }
        } else if eq_forms && "--interval="@.is_prefix_of(t) {
            match interval_value(t.skip(11)) {
                IntervalValue::Secs(n) => scan_daemon(toks, whole, after_eq, eq_forms, i + 1, n, strategy),
                IntervalValue::NotANumber => scan_daemon(
                    toks,
                    whole,
                    after_eq,
                    eq_forms,
                    i + 1,
                    interval,
                    strategy,
                ),
                IntervalValue::Overflow => None,
            }
        } else if t == "--strategy"@ && i + 1 < toks.len() {
            scan_daemon(
                toks,
                whole,
                after_eq,
                eq_forms,
                i + 2,
                interval,
                if whole[i + 1] {
                    Some(toks[i + 1])
                } else {
                    strategy
                },
            )
        } else if eq_forms && "--strategy="@.is_prefix_of(t) {
            scan_daemon(
                toks,
                whole,
                after_eq,
                eq_forms,
                i + 1,
                interval,
                if after_eq[i] {
                    Some(t.skip(11))
                } else {
                    strategy
                },
            )
        } else {
            scan_daemon(toks, whole, after_eq, eq_forms, i + 1, interval, strategy)
        }
    }
}

fn scan_daemon_args(toks: &Vec<String>, checks: &StrategyChecks, eq_forms: bool) -> (r: Option<
    (u64, Option<String>),
>)
    requires
        checks.whole@.len() == toks@.len(),
        checks.after_eq@.len() == toks@.len(),
    ensures
        match (r, scan_daemon(strs_view(toks@), checks.whole@, checks.after_eq@, eq_forms, 1, 30, None)) {
            (Some((n, s)), Some((m, t))) => n == m && opt_view(s) == t,
            (None, None) => true,
            _ => false,
        },
{
    let ghost tv = strs_view(toks@);
    let ghost target = scan_daemon(tv, checks.whole@, checks.after_eq@, eq_forms, 1, 30, None);
    let mut interval: u64 = 30;
    let mut strategy: Option<String> = None;
    let mut i: usize = 1;
    while i < toks.len()
        invariant
            tv == strs_view(toks@),
            checks.whole@.len() == toks@.len(),
            checks.after_eq@.len() == toks@.len(),
            1 <= i,
            target == scan_daemon(tv, checks.whole@, checks.after_eq@, eq_forms, 1, 30, None),
            scan_daemon(tv, checks.whole@, checks.after_eq@, eq_forms, i as int, interval, opt_view(strategy))
                == target,
        decreases toks.len() - i,
    {
        let t = toks[i].as_str();
        assert(tv[i as int] == t@);
        proof {
            reveal_strlit("--interval");
            reveal_strlit("--interval=");
            reveal_strlit("--strategy");
            reveal_strlit("--strategy=");
        }
        if str_eq(t, "--interval") && i + 1 < toks.len() {
            assert(tv[i + 1] == toks@[i + 1]@);
            match read_interval(toks[i + 1].as_str()) {
                IntervalValue::Secs(n) => {
                    interval = n;
                },
                IntervalValue::NotANumber => {},
                IntervalValue::Overflow => {
                    assert(scan_daemon(tv, checks.whole@, checks.after_eq@, eq_forms, i as int, interval, opt_view(strategy)) is None);
                    return None;
                },
            }
            i = i + 2;
        } else if eq_forms && str_starts_with(t, "--interval=") {
            let raw = str_skip(t, 11);
            match read_interval(raw.as_str()) {
                IntervalValue::Secs(n) => {
                    interval = n;
                },
                IntervalValue::NotANumber => {},
                IntervalValue::Overflow => {
                    assert(raw@ == t@.skip(11));
                    assert(scan_daemon(tv, checks.whole@, checks.after_eq@, eq_forms, i as int, interval, opt_view(strategy)) is None);
                    return None;
                },
            }
            i = i + 1;
        } else if str_eq(t, "--strategy") && i + 1 < toks.len() {
            assert(tv[i + 1] == toks@[i + 1]@);
            if checks.whole[i + 1] {
                strategy = Some(toks[i + 1].clone());
            }
            i = i + 2;
        } else if eq_forms && str_starts_with(t, "--strategy=") {
            if checks.after_eq[i] {
                strategy = Some(str_skip(t, 11));
            }
            i = i + 1;
        } else {
            i = i + 1;
        }
    }
    Some((interval, strategy))
}

// ---------------------------------------------------------------------------
// The options of `config`
// ---------------------------------------------------------------------------

/// A request to show or change the daemon's settings.
#[derive(Debug, Clone)]
pub struct ConfigRequest {
    pub strategy: Option<String>,
    pub interval: Option<u64>,
    pub watch: Option<String>,
    pub target: Option<String>,
    pub paths: Vec<String>,
    pub unwatch: Option<String>,
    pub reset_watch: bool,
    pub auto_entangle: Option<bool>,
    pub list: bool,
}

pub struct ConfigRequestView {
    pub strategy: Option<Seq<char>>,
    pub interval: Option<u64>,
    pub watch: Option<Seq<char>>,
    pub target: Option<Seq<char>>,
    pub paths: Seq<Seq<char>>,
    pub unwatch: Option<Seq<char>>,
    pub reset_watch: bool,
    pub auto_entangle: Option<bool>,
    pub list: bool,
}

impl View for ConfigRequest {
    type V = ConfigRequestView;

    open spec fn view(&self) -> ConfigRequestView {
        ConfigRequestView {
            strategy: opt_view(self.strategy),
            interval: self.interval,
            watch: opt_view(self.watch),
            target: opt_view(self.target),
            paths: strs_view(self.paths@),
            unwatch: opt_view(self.unwatch),
            reset_watch: self.reset_watch,
            auto_entangle: self.auto_entangle,
            list: self.list,
        }
    }
}

/// Why the options of `config` are refused.
#[derive(Debug, Clone)]
pub enum ConfigError {
    /// The text given as a strategy names none.
    BadStrategy(String),
    /// A message for the user.
    General(String),
    /// Minutes whose count of seconds does not fit in a `u64`.
    IntervalOverflow,
}

pub enum ConfigErrorView {
    BadStrategy(Seq<char>),
    General(Seq<char>),
    IntervalOverflow,
}

impl View for ConfigError {
    type V = ConfigErrorView;

    open spec fn view(&self) -> ConfigErrorView {
        match self {
            ConfigError::BadStrategy(s) => ConfigErrorView::BadStrategy(s@),
            ConfigError::General(s) => ConfigErrorView::General(s@),
            ConfigError::IntervalOverflow => ConfigErrorView::IntervalOverflow,
        }
    }
}

pub open spec fn empty_request() -> ConfigRequestView {
    ConfigRequestView {
        strategy: None,
        interval: None,
        watch: None,
        target: None,
        paths: Seq::empty(),
        unwatch: None,
        reset_watch: false,
        auto_entangle: None,
        list: false,
    }
}

/// The outcome of an interval given to `config`: a text that holds no
/// number is refused with its own message.
pub open spec fn config_interval(
    raw: Seq<char>,
    q: ConfigRequestView,
) -> Result<ConfigRequestView, ConfigErrorView> {
    match interval_value(raw) {
        IntervalValue::Secs(n) => Ok(ConfigRequestView { interval: Some(n), ..q }),
        IntervalValue::NotANumber => Err(
            ConfigErrorView::General("Invalid interval duration: '"@ + raw + "'"@),
        ),
        IntervalValue::Overflow => Err(ConfigErrorView::IntervalOverflow),
    }
}

/// One step of reading the options of `config` at word `i`: the request so
/// far with this option taken, and the index of the next word, or the
/// refusal.
pub open spec fn config_step(
    toks: Seq<Seq<char>>,
    whole: Seq<bool>,
    after_eq: Seq<bool>,
    i: int,
    q: ConfigRequestView,
) -> Result<(ConfigRequestView, int), ConfigErrorView> {
    let t = toks[i];
    let has_next = i + 1 < toks.len();
    if t == "--strategy"@ && has_next {
        if whole[i + 1] {
            Ok((ConfigRequestView { strategy: Some(toks[i + 1]), ..q }, i + 2))
        } else {
            Err(ConfigErrorView::BadStrategy(toks[i + 1]))
        }
    } else if "--strategy="@.is_prefix_of(t) {
        if after_eq[i] {
            Ok((ConfigRequestView { strategy: Some(t.skip(11)), ..q }, i + 1))
        } else {
            Err(ConfigErrorView::BadStrategy(t.skip(11)))
        }
    } else if t == "--interval"@ && has_next {
        match config_interval(toks[i + 1], q) {
            Ok(q2) => Ok((q2, i + 2)),
            Err(e) => Err(e),
        }
    } else if "--interval="@.is_prefix_of(t) {
        match config_interval(t.skip(11), q) {
            Ok(q2) => Ok((q2, i + 1)),
            Err(e) => Err(e),
        }
    } else if t == "--watch"@ && has_next {
        Ok((ConfigRequestView { watch: Some(toks[i + 1]), ..q }, i + 2))
    } else if "--watch="@.is_prefix_of(t) {
        Ok((ConfigRequestView { watch: Some(t.skip(8)), ..q }, i + 1))
    } else if t == "--target"@ && has_next {
        Ok((ConfigRequestView { target: Some(toks[i + 1]), ..q }, i + 2))
    } else if "--target="@.is_prefix_of(t) {
        Ok((ConfigRequestView { target: Some(t.skip(9)), ..q }, i + 1))
    } else if t == "--paths"@ && has_next {
        Ok((ConfigRequestView { paths: q.paths.push(toks[i + 1]), ..q }, i + 2))
    } else if "--paths="@.is_prefix_of(t) {
        Ok((ConfigRequestView { paths: q.paths.push(t.skip(8)), ..q }, i + 1))
    } else if t == "--unwatch"@ && has_next {
        Ok((ConfigRequestView { unwatch: Some(toks[i + 1]), ..q }, i + 2))
    } else if "--unwatch="@.is_prefix_of(t) {
        Ok((ConfigRequestView { unwatch: Some(t.skip(10)), ..q }, i + 1))
    } else if t == "--reset-watch"@ || t == "--clear-watch"@ || t == "--clear"@ {
        Ok((ConfigRequestView { reset_watch: true, ..q }, i + 1))
    } else if t == "--auto-entangle"@ {
        if has_next && (toks[i + 1] == "true"@ || toks[i + 1] == "false"@) {
            Ok((ConfigRequestView { auto_entangle: Some(toks[i + 1] == "true"@), ..q }, i + 2))
        } else {
            Ok((ConfigRequestView { auto_entangle: Some(true), ..q }, i + 1))
        }
    } else if t == "--no-auto-entangle"@ {
        Ok((ConfigRequestView { auto_entangle: Some(false), ..q }, i + 1))
    } else if "--auto-entangle="@.is_prefix_of(t) {
        let v = t.skip(16);
        Ok((ConfigRequestView { auto_entangle: Some(v == "true"@ || v == "1"@), ..q }, i + 1))
    } else if t == "--json"@ {
        Ok((q, i + 1))
    } else if t == "list"@ || t == "show"@ {
        Ok((ConfigRequestView { list: true, ..q }, i + 1))
    } else if t == "watch"@ && has_next {
        if i + 2 < toks.len() && !"-"@.is_prefix_of(toks[i + 2]) {
            Ok((ConfigRequestView { watch: Some(toks[i + 1]), target: Some(toks[i + 2]), ..q }, i + 3))
        } else {
            Ok((ConfigRequestView { watch: Some(toks[i + 1]), ..q }, i + 2))
        }
    } else if t == "unwatch"@ && has_next {
        Ok((ConfigRequestView { unwatch: Some(toks[i + 1]), ..q }, i + 2))
    } else if t == "reset"@ {
        Ok((ConfigRequestView { reset_watch: true, ..q }, i + 1))
    } else {
        Err(ConfigErrorView::General("Unknown config option: '"@ + t + "'"@))
    }
}

/// The request that the options of `config` from word `i` on make, or the
/// first refusal.
pub open spec fn scan_config(
    toks: Seq<Seq<char>>,
    whole: Seq<bool>,
    after_eq: Seq<bool>,
    i: int,
    q: ConfigRequestView,
) -> Result<ConfigRequestView, ConfigErrorView>
    decreases toks.len() - i,
{
    if i < 0 || i >= toks.len() {
        Ok(q)
    } else {
        match config_step(toks, whole, after_eq, i, q) {
            Ok((q2, j)) => if j > i {
                scan_config(toks, whole, after_eq, j, q2)
            } else {
                Ok(q2)
            },
            Err(e) => Err(e),
        }
    }
}

fn config_interval_exec(raw: &str, q: ConfigRequest) -> (r: Result<ConfigRequest, ConfigError>)
    ensures
        match (r, config_interval(raw@, q@)) {
            (Ok(a), Ok(b)) => a@ == b,
            (Err(a), Err(b)) => a@ == b,
            _ => false,
        },
{
    match read_interval(raw) {
        IntervalValue::Secs(n) => Ok(ConfigRequest { interval: Some(n), ..q }),
        IntervalValue::NotANumber => {
            let mut m = String::from_str("Invalid interval duration: '");
            m.append(raw);
            m.append("'");
            Err(ConfigError::General(m))
        },
        IntervalValue::Overflow => Err(ConfigError::IntervalOverflow),
    }
}

fn config_step_exec(toks: &Vec<String>, checks: &StrategyChecks, i: usize, q: ConfigRequest) -> (r: Result<
    (ConfigRequest, usize),
    ConfigError,
>)
    requires
        i < toks@.len(),
        checks.whole@.len() == toks@.len(),
        checks.after_eq@.len() == toks@.len(),
    ensures
        match (r, config_step(strs_view(toks@), checks.whole@, checks.after_eq@, i as int, q@)) {
            (Ok((a, j)), Ok((b, k))) => a@ == b && j == k,
            (Err(a), Err(b)) => a@ == b,
            _ => false,
        },
{
    let ghost tv = strs_view(toks@);
    let t = toks[i].as_str();
    assert(tv[i as int] == t@);
    let n = toks.len();
    let has_next = i < n - 1;
    if has_next {
        assert(tv[i + 1] == toks@[i + 1]@);
    }
    if n - i > 2 {
        assert(tv[i + 2] == toks@[i + 2]@);
    }
    proof {
        reveal_strlit("--strategy");
        reveal_strlit("--strategy=");
        reveal_strlit("--interval");
        reveal_strlit("--interval=");
        reveal_strlit("--watch");
        reveal_strlit("--watch=");
        reveal_strlit("--target");
        reveal_strlit("--target=");
        reveal_strlit("--paths");
        reveal_strlit("--paths=");
        reveal_strlit("--unwatch");
        reveal_strlit("--unwatch=");
        reveal_strlit("--auto-entangle=");
    }
    if str_eq(t, "--strategy") && has_next {
        if checks.whole[i + 1] {
            Ok((ConfigRequest { strategy: Some(toks[i + 1].clone()), ..q }, i + 2))
        } else {
            Err(ConfigError::BadStrategy(toks[i + 1].clone()))
        }
    } else if str_starts_with(t, "--strategy=") {
        if checks.after_eq[i] {
            Ok((ConfigRequest { strategy: Some(str_skip(t, 11)), ..q }, i + 1))
        } else {
            Err(ConfigError::BadStrategy(str_skip(t, 11)))
        }
    } else if str_eq(t, "--interval") && has_next {
        match config_interval_exec(toks[i + 1].as_str(), q) {
            Ok(q2) => Ok((q2, i + 2)),
            Err(e) => Err(e),
        }
    } else if str_starts_with(t, "--interval=") {
        let raw = str_skip(t, 11);
        match config_interval_exec(raw.as_str(), q) {
            Ok(q2) => Ok((q2, i + 1)),
            Err(e) => Err(e),
        }
    } else if str_eq(t, "--watch") && has_next {
        Ok((ConfigRequest { watch: Some(toks[i + 1].clone()), ..q }, i + 2))
    } else if str_starts_with(t, "--watch=") {
        Ok((ConfigRequest { watch: Some(str_skip(t, 8)), ..q }, i + 1))
    } else if str_eq(t, "--target") && has_next {
        Ok((ConfigRequest { target: Some(toks[i + 1].clone()), ..q }, i + 2))
    } else if str_starts_with(t, "--target=") {
        Ok((ConfigRequest { target: Some(str_skip(t, 9)), ..q }, i + 1))
    } else if str_eq(t, "--paths") && has_next {
        let mut q2 = q;
        let ghost before = strs_view(q2.paths@);
        q2.paths.push(toks[i + 1].clone());
        proof {
            assert(strs_view(q2.paths@) =~= before.push(toks@[i + 1]@));
        }
        Ok((q2, i + 2))
    } else if str_starts_with(t, "--paths=") {
        let mut q2 = q;
        let ghost before = strs_view(q2.paths@);
        let p = str_skip(t, 8);
        q2.paths.push(p);
        proof {
            assert(strs_view(q2.paths@) =~= before.push(t@.skip(8)));
        }
        Ok((q2, i + 1))
    } else {
        config_step_flags(toks, i, q)
    }
}

fn config_step_flags(toks: &Vec<String>, i: usize, q: ConfigRequest) -> (r: Result<
    (ConfigRequest, usize),
    ConfigError,
>)
    requires
        i < toks@.len(),
        !(toks@[i as int]@ == "--strategy"@ && i + 1 < toks@.len()),
        !"--strategy="@.is_prefix_of(toks@[i as int]@),
        !(toks@[i as int]@ == "--interval"@ && i + 1 < toks@.len()),
        !"--interval="@.is_prefix_of(toks@[i as int]@),
        !(toks@[i as int]@ == "--watch"@ && i + 1 < toks@.len()),
        !"--watch="@.is_prefix_of(toks@[i as int]@),
        !(toks@[i as int]@ == "--target"@ && i + 1 < toks@.len()),
        !"--target="@.is_prefix_of(toks@[i as int]@),
        !(toks@[i as int]@ == "--paths"@ && i + 1 < toks@.len()),
        !"--paths="@.is_prefix_of(toks@[i as int]@),
    ensures
        match (r, config_step(strs_view(toks@), Seq::empty(), Seq::empty(), i as int, q@)) {
            (Ok((a, j)), Ok((b, k))) => a@ == b && j == k,
            (Err(a), Err(b)) => a@ == b,
            _ => false,
        },
{
    let ghost tv = strs_view(toks@);
    let t = toks[i].as_str();
    assert(tv[i as int] == t@);
    let n = toks.len();
    let has_next = i < n - 1;
    if has_next {
        assert(tv[i + 1] == toks@[i + 1]@);
    }
    if n - i > 2 {
        assert(tv[i + 2] == toks@[i + 2]@);
    }
    proof {
        reveal_strlit("--unwatch");
        reveal_strlit("--unwatch=");
        reveal_strlit("--auto-entangle=");
        reveal_strlit("-");
    }
    if str_eq(t, "--unwatch") && has_next {
        Ok((ConfigRequest { unwatch: Some(toks[i + 1].clone()), ..q }, i + 2))
    } else if str_starts_with(t, "--unwatch=") {
        Ok((ConfigRequest { unwatch: Some(str_skip(t, 10)), ..q }, i + 1))
    } else if str_eq(t, "--reset-watch") || str_eq(t, "--clear-watch") || str_eq(t, "--clear") {
        Ok((ConfigRequest { reset_watch: true, ..q }, i + 1))
    } else if str_eq(t, "--auto-entangle") {
        if has_next && (str_eq(toks[i + 1].as_str(), "true") || str_eq(toks[i + 1].as_str(), "false")) {
            let v = str_eq(toks[i + 1].as_str(), "true");
            Ok((ConfigRequest { auto_entangle: Some(v), ..q }, i + 2))
        } else {
            Ok((ConfigRequest { auto_entangle: Some(true), ..q }, i + 1))
        }
    } else if str_eq(t, "--no-auto-entangle") {
        Ok((ConfigRequest { auto_entangle: Some(false), ..q }, i + 1))
    } else if str_starts_with(t, "--auto-entangle=") {
        let v = str_skip(t, 16);
        let on = str_eq(v.as_str(), "true") || str_eq(v.as_str(), "1");
        Ok((ConfigRequest { auto_entangle: Some(on), ..q }, i + 1))
    } else if str_eq(t, "--json") {
        Ok((q, i + 1))
    } else if str_eq(t, "list") || str_eq(t, "show") {
        Ok((ConfigRequest { list: true, ..q }, i + 1))
    } else if str_eq(t, "watch") && has_next {
        if n - i > 2 && !str_starts_with(toks[i + 2].as_str(), "-") {
            Ok(
                (
                    ConfigRequest {
                        watch: Some(toks[i + 1].clone()),
                        target: Some(toks[i + 2].clone()),
                        ..q
                    },
                    i + 3,
                ),
            )
        } else {
            Ok((ConfigRequest { watch: Some(toks[i + 1].clone()), ..q }, i + 2))
        }
    } else if str_eq(t, "unwatch") && has_next {
        Ok((ConfigRequest { unwatch: Some(toks[i + 1].clone()), ..q }, i + 2))
    } else if str_eq(t, "reset") {
        Ok((ConfigRequest { reset_watch: true, ..q }, i + 1))
    } else {
        let mut m = String::from_str("Unknown config option: '");
        m.append(t);
        m.append("'");
        Err(ConfigError::General(m))
    }
}

fn scan_config_args(toks: &Vec<String>, checks: &StrategyChecks) -> (r: Result<ConfigRequest, ConfigError>)
    requires
        checks.whole@.len() == toks@.len(),
        checks.after_eq@.len() == toks@.len(),
    ensures
        match (r, scan_config(strs_view(toks@), checks.whole@, checks.after_eq@, 1, empty_request())) {
            (Ok(a), Ok(b)) => a@ == b,
            (Err(a), Err(b)) => a@ == b,
            _ => false,
        },
{
    let ghost tv = strs_view(toks@);
    let ghost target = scan_config(tv, checks.whole@, checks.after_eq@, 1, empty_request());
    let mut q = ConfigRequest {
        strategy: None,
        interval: None,
        watch: None,
        target: None,
        paths: Vec::new(),
        unwatch: None,
        reset_watch: false,
        auto_entangle: None,
        list: false,
    };
    proof {
        assert(strs_view(q.paths@) =~= Seq::<Seq<char>>::empty());
        assert(q@ =~= empty_request());
    }
    let mut i: usize = 1;
    while i < toks.len()
        invariant
            tv == strs_view(toks@),
            checks.whole@.len() == toks@.len(),
            checks.after_eq@.len() == toks@.len(),
            1 <= i,
            target == scan_config(tv, checks.whole@, checks.after_eq@, 1, empty_request()),
            scan_config(tv, checks.whole@, checks.after_eq@, i as int, q@) == target,
        decreases toks.len() - i,
    {
        match config_step_exec(toks, checks, i, q) {
            Ok((q2, j)) => {
                q = q2;
                i = j;
            },
            Err(e) => {
                assert(scan_config(tv, checks.whole@, checks.after_eq@, i as int, q@) == Err::<ConfigRequestView, ConfigErrorView>(e@));
                return Err(e);
            },
        }
    }
    Ok(q)
}

// ---------------------------------------------------------------------------
// The daemon's settings
// ---------------------------------------------------------------------------

/// A dimension that the daemon keeps in sync with a target.
#[derive(Debug, Clone)]
pub struct WatchedDimension {
    pub dimension: String,
    pub target: String,
    pub strategy: Option<String>,
    pub interval_secs: Option<u64>,
    pub paths: Vec<String>,
    pub paused: bool,
    pub last_synced_at: Option<UtcTime>,
    pub last_synced_commit: Option<String>,
}

pub struct WatchedDimensionView {
    pub dimension: Seq<char>,
    pub target: Seq<char>,
    pub strategy: Option<Seq<char>>,
    pub interval_secs: Option<u64>,
    pub paths: Seq<Seq<char>>,
    pub paused: bool,
    pub last_synced_at: Option<UtcTime>,
    pub last_synced_commit: Option<Seq<char>>,
}

impl View for WatchedDimension {
    type V = WatchedDimensionView;

    open spec fn view(&self) -> WatchedDimensionView {
        WatchedDimensionView {
            dimension: self.dimension@,
            target: self.target@,
            strategy: opt_view(self.strategy),
            interval_secs: self.interval_secs,
            paths: strs_view(self.paths@),
            paused: self.paused,
            last_synced_at: self.last_synced_at,
            last_synced_commit: opt_view(self.last_synced_commit),
        }
    }
}

/// The daemon's settings: how often it syncs, with which strategy by
/// default, whether it propagates entanglements, and what it watches.
#[derive(Debug, Clone)]
pub struct CronosSettings {
    pub interval_secs: u64,
    pub default_strategy: String,
    pub auto_entangle: bool,
    pub watched_dimensions: Vec<WatchedDimension>,
}

pub struct CronosSettingsView {
    pub interval_secs: u64,
    pub default_strategy: Seq<char>,
    pub auto_entangle: bool,
    pub watched_dimensions: Seq<WatchedDimensionView>,
}

impl View for CronosSettings {
    type V = CronosSettingsView;

    open spec fn view(&self) -> CronosSettingsView {
        CronosSettingsView {
            interval_secs: self.interval_secs,
            default_strategy: self.default_strategy@,
            auto_entangle: self.auto_entangle,
            watched_dimensions: watch_views(self.watched_dimensions@),
        }
    }
}

pub open spec fn watch_views(v: Seq<WatchedDimension>) -> Seq<WatchedDimensionView> {
    v.map_values(|w: WatchedDimension| w@)
}

/// Whether a request changes anything; one that does not only shows the
/// settings.
pub open spec fn changes_settings(q: ConfigRequestView) -> bool {
    q.strategy is Some || q.interval is Some || q.watch is Some || q.unwatch is Some || q.reset_watch
        || q.auto_entangle is Some
}

/// The watches that are not on dimension `d`, in order.
pub open spec fn without_watch(ws: Seq<WatchedDimensionView>, d: Seq<char>) -> Seq<WatchedDimensionView>
    decreases ws.len(),
{
    if ws.len() == 0 {
        Seq::empty()
    } else {
        without_watch(ws.drop_last(), d) + (if ws.last().dimension == d {
            Seq::empty()
        } else {
            seq![ws.last()]
        })
    }
}

/// The index of the first watch on dimension `d`, from `k` on.
pub open spec fn watch_index(ws: Seq<WatchedDimensionView>, d: Seq<char>, k: int) -> Option<int>
    decreases ws.len() - k,
{
    if k < 0 || k >= ws.len() {
        None
    } else if ws[k].dimension == d {
        Some(k)
    } else {
        watch_index(ws, d, k + 1)
    }
}

/// The watches once a request to watch `dim` into `target` is applied: the
/// first watch on `dim` takes the target, and the strategy, interval and
/// paths the request gives; without one, a new unpaused watch is added.
pub open spec fn watched_after(
    ws: Seq<WatchedDimensionView>,
    dim: Seq<char>,
    target: Seq<char>,
    q: ConfigRequestView,
) -> Seq<WatchedDimensionView> {
    match watch_index(ws, dim, 0) {
        Some(k) => ws.update(
            k,
            WatchedDimensionView {
                target,
                strategy: if q.strategy is Some {
                    q.strategy
                } else {
                    ws[k].strategy
                },
                interval_secs: if q.interval is Some {
                    q.interval
                } else {
                    ws[k].interval_secs
                },
                paths: if q.paths.len() > 0 {
                    q.paths
                } else {
                    ws[k].paths
                },
                ..ws[k]
            },
        ),
        None => ws.push(
            WatchedDimensionView {
                dimension: dim,
                target,
                strategy: q.strategy,
                interval_secs: q.interval,
                paths: q.paths,
                paused: false,
                last_synced_at: None,
                last_synced_commit: None,
            },
        ),
    }
}

/// The settings once a request that changes them is applied: the watches
/// are cleared first if asked, then the unwatched dimension dropped; a
/// watch request edits or adds its watch, and otherwise the strategy and
/// interval given become the defaults; the entanglement switch is set if
/// given.
pub open spec fn settings_after(c: CronosSettingsView, q: ConfigRequestView) -> CronosSettingsView {
    let w0 = if q.reset_watch {
        Seq::empty()
    } else {
        c.watched_dimensions
    };
    let w1 = match q.unwatch {
        Some(d) => without_watch(w0, d),
        None => w0,
    };
    let auto = match q.auto_entangle {
        Some(a) => a,
        None => c.auto_entangle,
    };
    match q.watch {
        Some(dim) => CronosSettingsView {
            auto_entangle: auto,
            watched_dimensions: watched_after(
                w1,
                dim,
                match q.target {
                    Some(t) => t,
                    None => "mainline"@,
                },
                q,
            ),
            ..c
        },
        None => CronosSettingsView {
            interval_secs: match q.interval {
                Some(v) => v,
                None => c.interval_secs,
            },
            default_strategy: match q.strategy {
                Some(s) => s,
                None => c.default_strategy,
            },
            auto_entangle: auto,
            watched_dimensions: w1,
        },
    }
}

fn copy_watch(w: &WatchedDimension) -> (r: WatchedDimension)
    ensures
        r@ == w@,
{
    WatchedDimension {
        dimension: w.dimension.clone(),
        target: w.target.clone(),
        strategy: match &w.strategy {
            Some(s) => Some(s.clone()),
            None => None,
        },
        interval_secs: w.interval_secs,
        paths: crate::text::clone_strings(&w.paths),
        paused: w.paused,
        last_synced_at: w.last_synced_at,
        last_synced_commit: match &w.last_synced_commit {
            Some(s) => Some(s.clone()),
            None => None,
        },
    }
}

fn drop_watches_on(ws: &Vec<WatchedDimension>, d: &str) -> (r: Vec<WatchedDimension>)
    ensures
        watch_views(r@) == without_watch(watch_views(ws@), d@),
{
    let ghost wv = watch_views(ws@);
    let mut out: Vec<WatchedDimension> = Vec::new();
    let mut i: usize = 0;
    proof {
        assert(wv.take(0) =~= Seq::<WatchedDimensionView>::empty());
        assert(watch_views(out@) =~= Seq::<WatchedDimensionView>::empty());
    }
    while i < ws.len()
        invariant
            i <= ws.len(),
            wv == watch_views(ws@),
            watch_views(out@) == without_watch(wv.take(i as int), d@),
        decreases ws.len() - i,
    {
        proof {
            assert(wv.take(i + 1).drop_last() =~= wv.take(i as int));
            assert(wv.take(i + 1).last() == ws@[i as int]@);
        }
        let ghost before = watch_views(out@);
        if !str_eq(ws[i].dimension.as_str(), d) {
            out.push(copy_watch(&ws[i]));
            proof {
                assert(watch_views(out@) =~= before + seq![ws@[i as int]@]);
            }
        } else {
            proof {
                assert(before + Seq::<WatchedDimensionView>::empty() =~= before);
            }
        }
        i = i + 1;
    }
    proof {
        assert(wv.take(ws.len() as int) =~= wv);
    }
    out
}

fn find_watch(ws: &Vec<WatchedDimension>, d: &str) -> (r: Option<usize>)
    ensures
        match r {
            Some(k) => k < ws@.len() && watch_index(watch_views(ws@), d@, 0) == Some(k as int),
            None => watch_index(watch_views(ws@), d@, 0) is None,
        },
{
    let ghost wv = watch_views(ws@);
    let mut i: usize = 0;
    while i < ws.len()
        invariant
            i <= ws.len(),
            wv == watch_views(ws@),
            watch_index(wv, d@, 0) == watch_index(wv, d@, i as int),
        decreases ws.len() - i,
    {
        assert(wv[i as int] == ws@[i as int]@);
        if str_eq(ws[i].dimension.as_str(), d) {
            return Some(i);
        }
        i = i + 1;
    }
    None
}

fn watch_into(ws: Vec<WatchedDimension>, dim: &str, target: String, q: &ConfigRequest) -> (r: Vec<
    WatchedDimension,
>)
    ensures
        watch_views(r@) == watched_after(watch_views(ws@), dim@, target@, q@),
{
    let ghost wv = watch_views(ws@);
    let mut ws = ws;
    match find_watch(&ws, dim) {
        Some(k) => {
            let old = copy_watch(&ws[k]);
            assert(old@ == wv[k as int]);
            let w = WatchedDimension {
                dimension: old.dimension,
                target,
                strategy: match &q.strategy {
                    Some(s) => Some(s.clone()),
                    None => old.strategy,
                },
                interval_secs: match q.interval {
                    Some(v) => Some(v),
                    None => old.interval_secs,
                },
                paths: if q.paths.len() > 0 {
                    crate::text::clone_strings(&q.paths)
                } else {
                    old.paths
                },
                paused: old.paused,
                last_synced_at: old.last_synced_at,
                last_synced_commit: old.last_synced_commit,
            };
            let ghost wview = w@;
            assert(wview == WatchedDimensionView {
                target: target@,
                strategy: if q@.strategy is Some {
                    q@.strategy
                } else {
                    wv[k as int].strategy
                },
                interval_secs: if q@.interval is Some {
                    q@.interval
                } else {
                    wv[k as int].interval_secs
                },
                paths: if q@.paths.len() > 0 {
                    q@.paths
                } else {
                    wv[k as int].paths
                },
                ..wv[k as int]
            });
            ws.set(k, w);
            proof {
                assert(watch_views(ws@) =~= wv.update(k as int, wview));
                assert(watch_index(wv, dim@, 0) == Some(k as int));
                assert(watch_views(ws@) == watched_after(wv, dim@, target@, q@));
            }
            ws
        },
        None => {
            let w = WatchedDimension {
                dimension: String::from_str(dim),
                target,
                strategy: match &q.strategy {
                    Some(s) => Some(s.clone()),
                    None => None,
                },
                interval_secs: q.interval,
                paths: crate::text::clone_strings(&q.paths),
                paused: false,
                last_synced_at: None,
                last_synced_commit: None,
            };
            let ghost wview = w@;
            ws.push(w);
            proof {
                assert(watch_views(ws@) =~= wv.push(wview));
                assert(watch_views(ws@) == watched_after(wv, dim@, target@, q@));
            }
            ws
        },
    }
}

/// Whether a request changes the settings.
pub fn request_changes(q: &ConfigRequest) -> (r: bool)
    ensures
        r == changes_settings(q@),
{
    q.strategy.is_some() || q.interval.is_some() || q.watch.is_some() || q.unwatch.is_some()
        || q.reset_watch || q.auto_entangle.is_some()
}

/// Applies a request that changes the settings.
pub fn apply_config(c: &CronosSettings, q: &ConfigRequest) -> (r: CronosSettings)
    ensures
        r@ == settings_after(c@, q@),
{
    let w0: Vec<WatchedDimension> = if q.reset_watch {
        Vec::new()
    } else {
        let mut v: Vec<WatchedDimension> = Vec::new();
        let mut i: usize = 0;
        while i < c.watched_dimensions.len()
            invariant
                i <= c.watched_dimensions.len(),
                watch_views(v@) == watch_views(c.watched_dimensions@).take(i as int),
            decreases c.watched_dimensions.len() - i,
        {
            let ghost before = watch_views(v@);
            v.push(copy_watch(&c.watched_dimensions[i]));
            proof {
                assert(watch_views(c.watched_dimensions@)[i as int] == c.watched_dimensions@[i as int]@);
                assert(watch_views(v@) =~= before.push(c.watched_dimensions@[i as int]@));
                assert(watch_views(v@) =~= watch_views(c.watched_dimensions@).take(i + 1));
            }
            i = i + 1;
        }
        proof {
            assert(watch_views(c.watched_dimensions@).take(c.watched_dimensions.len() as int)
                =~= watch_views(c.watched_dimensions@));
        }
        v
    };
    proof {
        if q.reset_watch {
            assert(watch_views(w0@) =~= Seq::<WatchedDimensionView>::empty());
        }
    }
    let w1 = match &q.unwatch {
        Some(d) => drop_watches_on(&w0, d.as_str()),
        None => w0,
    };
    let auto = match q.auto_entangle {
        Some(a) => a,
        None => c.auto_entangle,
    };
    match &q.watch {
        Some(dim) => {
            let target = match &q.target {
                Some(t) => t.clone(),
                None => String::from_str("mainline"),
            };
            proof {
                reveal_strlit("mainline");
            }
            let ws = watch_into(w1, dim.as_str(), target, q);
            CronosSettings {
                interval_secs: c.interval_secs,
                default_strategy: c.default_strategy.clone(),
                auto_entangle: auto,
                watched_dimensions: ws,
            }
        },
        None => CronosSettings {
            interval_secs: match q.interval {
                Some(v) => v,
                None => c.interval_secs,
            },
            default_strategy: match &q.strategy {
                Some(s) => s.clone(),
                None => c.default_strategy.clone(),
            },
            auto_entangle: auto,
            watched_dimensions: w1,
        },
    }
}

proof fn lemma_watch_index_update(
    ws: Seq<WatchedDimensionView>,
    d: Seq<char>,
    j: int,
    k: int,
    w: WatchedDimensionView,
)
    requires
        0 <= j <= k < ws.len(),
        watch_index(ws, d, j) == Some(k),
        w.dimension == d,
    ensures
        watch_index(ws.update(k, w), d, j) == Some(k),
    decreases k - j,
{
    if j < k {
        lemma_watch_index_update(ws, d, j + 1, k, w);
    }
}

proof fn lemma_watch_index_push(ws: Seq<WatchedDimensionView>, d: Seq<char>, j: int, w: WatchedDimensionView)
    requires
        0 <= j <= ws.len(),
        watch_index(ws, d, j) is None,
        w.dimension == d,
    ensures
        watch_index(ws.push(w), d, j) == Some(ws.len() as int),
    decreases ws.len() - j,
{
    if j < ws.len() {
        lemma_watch_index_push(ws, d, j + 1, w);
    }
}

proof fn lemma_watch_index_found(ws: Seq<WatchedDimensionView>, d: Seq<char>, j: int)
    requires
        0 <= j,
    ensures
        watch_index(ws, d, j) matches Some(k) ==> j <= k < ws.len() && ws[k].dimension == d,
    decreases ws.len() - j,
{
    if j < ws.len() && ws[j].dimension != d {
        lemma_watch_index_found(ws, d, j + 1);
    }
}

/// After a request to watch a dimension, the dimension is watched, with the
/// target the request names (the mainline when it names none).
pub proof fn lemma_watch_request_watches(c: CronosSettingsView, q: ConfigRequestView)
    requires
        q.watch is Some,
    ensures
        ({
            let r = settings_after(c, q);
            let d = q.watch->0;
            watch_index(r.watched_dimensions, d, 0) matches Some(k) && r.watched_dimensions[k].target == (
            match q.target {
                Some(t) => t,
                None => "mainline"@,
            })
        }),
{
    let d = q.watch->0;
    let w0 = if q.reset_watch {
        Seq::empty()
    } else {
        c.watched_dimensions
    };
    let w1 = match q.unwatch {
        Some(u) => without_watch(w0, u),
        None => w0,
    };
    let target = match q.target {
        Some(t) => t,
        None => "mainline"@,
    };
    lemma_watch_index_found(w1, d, 0);
    match watch_index(w1, d, 0) {
        Some(k) => {
            let nw = WatchedDimensionView {
                target,
                strategy: if q.strategy is Some {
                    q.strategy
                } else {
                    w1[k].strategy
                },
                interval_secs: if q.interval is Some {
                    q.interval
                } else {
                    w1[k].interval_secs
                },
                paths: if q.paths.len() > 0 {
                    q.paths
                } else {
                    w1[k].paths
                },
                ..w1[k]
            };
            lemma_watch_index_update(w1, d, 0, k, nw);
        },
        None => {
            let nw = WatchedDimensionView {
                dimension: d,
                target,
                strategy: q.strategy,
                interval_secs: q.interval,
                paths: q.paths,
                paused: false,
                last_synced_at: None,
                last_synced_commit: None,
            };
            lemma_watch_index_push(w1, d, 0, nw);
        },
    }
}

proof fn lemma_without_watch_drops(ws: Seq<WatchedDimensionView>, d: Seq<char>)
    ensures
        forall|k: int| 0 <= k < without_watch(ws, d).len() ==> (#[trigger] without_watch(ws, d)[k]).dimension != d,
    decreases ws.len(),
{
    if ws.len() > 0 {
        lemma_without_watch_drops(ws.drop_last(), d);
        let prev = without_watch(ws.drop_last(), d);
        assert forall|k: int| 0 <= k < without_watch(ws, d).len() implies (#[trigger] without_watch(
            ws,
            d,
        )[k]).dimension != d by {
            if k < prev.len() {
                assert(without_watch(ws, d)[k] == prev[k]);
            }
        }
    }
}

/// After a request to unwatch a dimension that does not also watch it, no
/// watch on that dimension is left.
pub proof fn lemma_unwatch_request_unwatches(c: CronosSettingsView, q: ConfigRequestView)
    requires
        q.unwatch is Some,
        q.watch != q.unwatch,
    ensures
        forall|k: int|
            0 <= k < settings_after(c, q).watched_dimensions.len() ==> (#[trigger] settings_after(
                c,
                q,
            ).watched_dimensions[k]).dimension != q.unwatch->0,
{
    let u = q.unwatch->0;
    let w0 = if q.reset_watch {
        Seq::empty()
    } else {
        c.watched_dimensions
    };
    let w1 = without_watch(w0, u);
    lemma_without_watch_drops(w0, u);
    match q.watch {
        Some(d) => {
            lemma_watch_index_found(w1, d, 0);
            let r = settings_after(c, q).watched_dimensions;
            assert forall|k: int| 0 <= k < r.len() implies (#[trigger] r[k]).dimension != u by {
                match watch_index(w1, d, 0) {
                    Some(j) => {
                        if k != j {
                            assert(r[k] == w1[k]);
                        }
                    },
                    None => {
                        if k < w1.len() {
                            assert(r[k] == w1[k]);
                        }
                    },
                }
            }
        },
        None => {},
    }
}

/// An interval in minutes counts sixty seconds a minute: `{n}m` stands for
/// sixty times what `{n}` stands for.
pub proof fn lemma_minutes_scale(digits: Seq<char>, n: u64)
    requires
        digits.len() > 0,
        forall|i: int| 0 <= i < digits.len() ==> crate::text::is_decimal_digit(#[trigger] digits[i]),
        interval_value(digits) == IntervalValue::Secs(n),
        n * 60 <= u64::MAX,
    ensures
        interval_value(digits.push('m')) == IntervalValue::Secs((n * 60) as u64),
{
    let s = digits.push('m');
    assert(crate::text::is_decimal_digit(digits.last()));
    assert(trim_end_char(s, 's') == s);
    assert(s.drop_last() =~= digits);
    assert(trim_end_char(digits, 'm') == digits);
    assert(trim_end_char(digits, 's') == digits);
    crate::text::lemma_u64_parse_bounded(digits);
}

// ---------------------------------------------------------------------------
// The subcommand
// ---------------------------------------------------------------------------

/// What `dft cronos` was asked to do.
#[derive(Debug)]
pub enum CronosCommand {
    /// Start the daemon in the background with this interval and strategy
    /// (the default strategy where none is given); nothing where an
    /// interval in minutes overflows.
    Start { launch: Option<(u64, Option<String>)> },
    /// Run as the daemon's worker, likewise.
    Worker { launch: Option<(u64, Option<String>)> },
    Status,
    Stop,
    Log,
    Pause { dimension: String },
    Resume { dimension: String },
    /// Show or change the settings, as the request asks.
    Config { request: Result<ConfigRequest, ConfigError>, json: bool },
    Wal,
    Sync,
}

/// What the words after `dft cronos` ask for, or the message that refuses
/// them. No word means `status`.
pub open spec fn cronos_kind(toks: Seq<Seq<char>>) -> Result<Seq<char>, Seq<char>> {
    let cmd = if toks.len() > 0 {
        toks[0]
    } else {
        "status"@
    };
    if cmd == "start"@ || cmd == "_worker"@ || cmd == "status"@ || cmd == "stop"@ || cmd == "log"@
        || cmd == "pause"@ || cmd == "resume"@ || cmd == "config"@ || cmd == "wal"@ || cmd == "sync"@ {
        Ok(cmd)
    } else {
        Err("Unknown cronos subcommand: "@ + cmd)
    }
}

/// The dimension that `pause` and `resume` name, or `unknown`.
pub open spec fn named_dimension(toks: Seq<Seq<char>>) -> Seq<char> {
    if toks.len() > 1 {
        toks[1]
    } else {
        "unknown"@
    }
}

pub open spec fn launch_view(l: Option<(u64, Option<String>)>) -> Option<(u64, Option<Seq<char>>)> {
    match l {
        Some((n, s)) => Some((n, opt_view(s))),
        None => None,
    }
}

/// Whether a command read from the words after `dft cronos` is the one
/// they ask for.
pub open spec fn cronos_fits(
    c: CronosCommand,
    toks: Seq<Seq<char>>,
    whole: Seq<bool>,
    after_eq: Seq<bool>,
    kind: Seq<char>,
) -> bool {
    match c {
        CronosCommand::Start { launch } => kind == "start"@ && launch_view(launch) == scan_daemon(
            toks,
            whole,
            after_eq,
            true,
            1,
            30,
            None,
        ),
        CronosCommand::Worker { launch } => kind == "_worker"@ && launch_view(launch) == scan_daemon(
            toks,
            whole,
            after_eq,
            false,
            1,
            30,
            None,
        ),
        CronosCommand::Status => kind == "status"@,
        CronosCommand::Stop => kind == "stop"@,
        CronosCommand::Log => kind == "log"@,
        CronosCommand::Pause { dimension } => kind == "pause"@ && dimension@ == named_dimension(toks),
        CronosCommand::Resume { dimension } => kind == "resume"@ && dimension@ == named_dimension(toks),
        CronosCommand::Config { request, json } => kind == "config"@ && json == toks.contains("--json"@)
            && match (request, scan_config(toks, whole, after_eq, 1, empty_request())) {
            (Ok(a), Ok(b)) => a@ == b,
            (Err(a), Err(b)) => a@ == b,
            _ => false,
        },
        CronosCommand::Wal => kind == "wal"@,
        CronosCommand::Sync => kind == "sync"@,
    }
}

fn launch_of(toks: &Vec<String>, checks: &StrategyChecks, eq_forms: bool) -> (r: Option<(u64, Option<String>)>)
    requires
        checks.whole@.len() == toks@.len(),
        checks.after_eq@.len() == toks@.len(),
    ensures
        launch_view(r) == scan_daemon(strs_view(toks@), checks.whole@, checks.after_eq@, eq_forms, 1, 30, None),
{
    scan_daemon_args(toks, checks, eq_forms)
}

/// Reads the words after `dft cronos` into the subcommand they ask for, or
/// the message that refuses them; `checks` says, for each word, whether it
/// or what follows `--strategy=` in it names a sync strategy.
pub fn parse_cronos_command(args: &CronosArgs, checks: &StrategyChecks) -> (r: Result<CronosCommand, String>)
    requires
        checks.whole@.len() == args.args@.len(),
        checks.after_eq@.len() == args.args@.len(),
    ensures
        match (r, cronos_kind(strs_view(args.args@))) {
            (Ok(c), Ok(k)) => cronos_fits(c, strs_view(args.args@), checks.whole@, checks.after_eq@, k),
            (Err(m), Err(e)) => m@ == e,
            _ => false,
        },
{
    let toks = &args.args;
    let ghost tv = strs_view(toks@);
    proof {
        reveal_strlit("status");
        reveal_strlit("start");
        reveal_strlit("_worker");
        reveal_strlit("stop");
        reveal_strlit("log");
        reveal_strlit("pause");
        reveal_strlit("resume");
        reveal_strlit("config");
        reveal_strlit("wal");
        reveal_strlit("sync");
        reveal_strlit("unknown");
    }
    let cmd: &str = if toks.len() > 0 {
        toks[0].as_str()
    } else {
        "status"
    };
    if toks.len() > 0 {
        assert(tv[0] == cmd@);
    }
    let dim = if toks.len() > 1 {
        assert(tv[1] == toks@[1]@);
        toks[1].clone()
    } else {
        String::from_str("unknown")
    };
    if str_eq(cmd, "start") {
        Ok(CronosCommand::Start { launch: launch_of(toks, checks, true) })
    } else if str_eq(cmd, "_worker") {
        Ok(CronosCommand::Worker { launch: launch_of(toks, checks, false) })
    } else if str_eq(cmd, "status") {
        Ok(CronosCommand::Status)
    } else if str_eq(cmd, "stop") {
        Ok(CronosCommand::Stop)
    } else if str_eq(cmd, "log") {
        Ok(CronosCommand::Log)
    } else if str_eq(cmd, "pause") {
        Ok(CronosCommand::Pause { dimension: dim })
    } else if str_eq(cmd, "resume") {
        Ok(CronosCommand::Resume { dimension: dim })
    } else if str_eq(cmd, "config") {
        let json = any_is(toks, "--json");
        let request = scan_config_args(toks, checks);
        Ok(CronosCommand::Config { request, json })
    } else if str_eq(cmd, "wal") {
        Ok(CronosCommand::Wal)
    } else if str_eq(cmd, "sync") {
        Ok(CronosCommand::Sync)
    } else {
        let mut m = String::from_str("Unknown cronos subcommand: ");
        m.append(cmd);
        Err(m)
    }
}

// ---------------------------------------------------------------------------
// The worker's clock
// ---------------------------------------------------------------------------

/// What the worker does after each pause of 100 ms.
#[derive(Debug, Clone, Copy, PartialEq, Eq, Structural)]
pub enum WorkerAction {
    /// Another process owns the daemon now: stop.
    Stop,
    /// The interval has passed: run a sync pass and start counting again.
    Tick,
    /// Keep waiting.
    Wait,
}

/// The worker's decision after `elapsed_ms` milliseconds since the last
/// pass, with `interval_secs` between passes (at least one second), given
/// the process recorded as the daemon's owner.
pub open spec fn worker_decision(elapsed_ms: u64, interval_secs: u64, owner: Option<u32>, me: u32) -> WorkerAction {
    if owner != Some(me) {
        WorkerAction::Stop
    } else if elapsed_ms >= (if interval_secs >= 1 { interval_secs } else { 1 }) * 1000 {
        WorkerAction::Tick
    } else {
        WorkerAction::Wait
    }
}

/// The worker's decision after a pause; see `worker_decision`.
pub fn worker_step(elapsed_ms: u64, interval_secs: u64, owner: Option<u32>, me: u32) -> (r: WorkerAction)
    ensures
        r == worker_decision(elapsed_ms, interval_secs, owner, me),
{
    let owned = match owner {
        Some(p) => p == me,
        None => false,
    };
    if !owned {
        return WorkerAction::Stop;
    }
    let every = if interval_secs >= 1 {
        interval_secs
    } else {
        1
    };
    if elapsed_ms / 1000 >= every {
        assert(elapsed_ms >= every * 1000) by (nonlinear_arith)
            requires
                elapsed_ms / 1000 >= every,
        ;
        WorkerAction::Tick
    } else {
        assert(elapsed_ms < every * 1000) by (nonlinear_arith)
            requires
                elapsed_ms / 1000 < every,
        ;
        WorkerAction::Wait
    }
}

} // verus!
