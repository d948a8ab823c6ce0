//! Glob matching and glob intersection over normalized, slash-separated paths.
//!
//! `*` matches any run of characters inside one path segment, `?` one
//! character, a whole `**` segment any number of segments, and a pattern that
//! ends in `/` a directory together with everything below it.
use vstd::prelude::*;
use crate::text::{
    chars_eq, chars_eq_str, chars_of, contains_char, starts_with_chars, string_of,
    take_chars,
};

use crate::territory::meet::{lemma_patterns_meet_exact, patterns_meet_run};

verus! {

/// Backslashes turned into forward slashes.
pub open spec fn slashes_fixed(s: Seq<char>) -> Seq<char> {
    s.map_values(|c: char| if c == '\\' { '/' } else { c })
}

/// Every leading `./` removed.
pub open spec fn strip_dot_slash(s: Seq<char>) -> Seq<char>
    decreases s.len(),
{
    if s.len() >= 2 && s[0] == '.' && s[1] == '/' {
        strip_dot_slash(s.skip(2))
    } else {
        s
    }
}

/// The normal form of a path or pattern: forward slashes, no leading `./`.
pub open spec fn normalized(s: Seq<char>) -> Seq<char> {
    strip_dot_slash(slashes_fixed(s))
}

/// The segments between `/` characters (an empty text has one empty segment).
pub open spec fn split_slash(s: Seq<char>) -> Seq<Seq<char>>
    decreases s.len(),
{
    if s.len() == 0 {
        seq![Seq::<char>::empty()]
    } else {
        let prev = split_slash(s.drop_last());
        if s.last() == '/' {
            prev.push(Seq::<char>::empty())
        } else {
            prev.update(prev.len() - 1, prev.last().push(s.last()))
        }
    }
}

/// Whether the pattern segment `p` from index `pi` matches the text `t` from
/// index `ti` (`*` any run of characters, `?` any one character).
pub open spec fn segment_match(p: Seq<char>, t: Seq<char>, pi: int, ti: int) -> bool
    decreases p.len() - pi, t.len() + 1 - ti,
{
    if pi >= p.len() {
        ti >= t.len()
    } else if p[pi] == '*' {
        ti <= t.len() && star_segment_match(p, t, pi, ti)
    } else if ti >= t.len() {
        false
    } else {
        (p[pi] == '?' || p[pi] == t[ti]) && segment_match(p, t, pi + 1, ti + 1)
    }
}

/// Whether the `*` at `p[pi]` can absorb `t[ti..j]` for some `j` so that the
/// rest of the pattern matches the rest of the text.
pub open spec fn star_segment_match(p: Seq<char>, t: Seq<char>, pi: int, ti: int) -> bool
    decreases p.len() - pi, t.len() - ti,
{
    if pi >= p.len() {
        false
    } else {
        segment_match(p, t, pi + 1, ti) || (ti < t.len() && star_segment_match(p, t, pi, ti + 1))
    }
}

/// Whether the pattern segments from `pi` match the path segments from `ti`;
/// a `**` segment stands for any number of path segments.
pub open spec fn parts_match(pat: Seq<Seq<char>>, tgt: Seq<Seq<char>>, pi: int, ti: int) -> bool
    decreases pat.len() - pi, tgt.len() + 1 - ti,
{
    if pi >= pat.len() {
        ti >= tgt.len()
    } else if pat[pi] == seq!['*', '*'] {
        ti <= tgt.len() && star_parts_match(pat, tgt, pi, ti)
    } else if ti >= tgt.len() {
        false
    } else {
        segment_match(pat[pi], tgt[ti], 0, 0) && parts_match(pat, tgt, pi + 1, ti + 1)
    }
}

/// Whether the `**` at `pat[pi]` can absorb `tgt[ti..j]` for some `j` so that
/// the remaining segments match.
pub open spec fn star_parts_match(pat: Seq<Seq<char>>, tgt: Seq<Seq<char>>, pi: int, ti: int) -> bool
    decreases pat.len() - pi, tgt.len() - ti,
{
    if pi >= pat.len() {
        false
    } else {
        parts_match(pat, tgt, pi + 1, ti) || (ti < tgt.len() && star_parts_match(
            pat,
            tgt,
            pi,
            ti + 1,
        ))
    }
}

/// Whether the glob `pattern` matches `path`.
pub open spec fn glob_matches(pattern: Seq<char>, path: Seq<char>) -> bool {
    let p = normalized(pattern);
    let t = normalized(path);
    ||| p == t
    ||| p == seq!['*', '*']
    ||| p == seq!['.']
    ||| (p == seq!['*'] && !t.contains('/'))
    ||| (p.len() > 0 && p.last() == '/' && (t == p.drop_last() || p.drop_last().push(
        '/',
    ).is_prefix_of(t)))
    ||| parts_match(split_slash(p), split_slash(t), 0, 0)
}

/// Every trailing `c` removed.
pub open spec fn trim_end_char(s: Seq<char>, c: char) -> Seq<char>
    decreases s.len(),
{
    if s.len() > 0 && s.last() == c {
        trim_end_char(s.drop_last(), c)
    } else {
        s
    }
}

/// Every trailing `/**` removed.
pub open spec fn trim_end_globstar(s: Seq<char>) -> Seq<char>
    decreases s.len(),
{
    if s.len() >= 3 && s.subrange(s.len() - 3, s.len() as int) == seq!['/', '*', '*'] {
        trim_end_globstar(s.subrange(0, s.len() - 3))
    } else {
        s
    }
}

/// A pattern cut down to the directory subtree it covers.
pub open spec fn subtree_root(s: Seq<char>) -> Seq<char> {
    trim_end_globstar(trim_end_char(s, '/'))
}

/// Whether `a` is `b`, or a path below `b`.
pub open spec fn at_or_below(a: Seq<char>, b: Seq<char>) -> bool {
    a == b || b.push('/').is_prefix_of(a)
}

/// Whether a normal form matches everything (`**` or `.`).
pub open spec fn is_universal(p: Seq<char>) -> bool {
    p == seq!['*', '*'] || p == seq!['.']
}

/// Whether two glob patterns can match overlapping paths: they are the same,
/// one matches everything (`**` or `.`) or matches the other, some path is
/// matched by both, or the subtree one covers (without trailing `/` and
/// `/**`) is the other's or lies below it.
pub open spec fn globs_overlap(pat_a: Seq<char>, pat_b: Seq<char>) -> bool {
    let a = normalized(pat_a);
    let b = normalized(pat_b);
    ||| a == b
    ||| is_universal(a)
    ||| is_universal(b)
    ||| glob_matches(a, b)
    ||| glob_matches(b, a)
    ||| (exists|t: Seq<char>| glob_matches(pat_a, t) && #[trigger] glob_matches(pat_b, t))
    ||| at_or_below(subtree_root(a), subtree_root(b))
    ||| at_or_below(subtree_root(b), subtree_root(a))
}

proof fn lemma_literals()
    ensures
        "**"@ == seq!['*', '*'],
        "*"@ == seq!['*'],
        "."@ == seq!['.'],
{
    reveal_strlit("**");
    reveal_strlit("*");
    reveal_strlit(".");
    assert("**"@ =~= seq!['*', '*']);
    assert("*"@ =~= seq!['*']);
    assert("."@ =~= seq!['.']);
}

proof fn lemma_strip_dot_slash_step(s: Seq<char>, k: int)
    requires
        0 <= k,
        k + 2 <= s.len(),
        s[k] == '.',
        s[k + 1] == '/',
    ensures
        strip_dot_slash(s.skip(k)) == strip_dot_slash(s.skip(k + 2)),
{
    assert(s.skip(k).skip(2) =~= s.skip(k + 2));
}

proof fn lemma_strip_dot_slash_no_prefix(s: Seq<char>)
    requires
        s.len() < 2 || s[0] != '.' || s[1] != '/',
    ensures
        strip_dot_slash(s) == s,
{
}

/// The normal form of `v` (already converted to characters).
pub(crate) fn normalize_chars(v: &Vec<char>) -> (r: Vec<char>)
    ensures
        r@ == normalized(v@),
{
    let mut fixed: Vec<char> = Vec::new();
    let mut i: usize = 0;
    while i < v.len()
        invariant
            i <= v.len(),
            fixed@ == slashes_fixed(v@.take(i as int)),
        decreases v.len() - i,
    {
        let c = if v[i] == '\\' {
            '/'
        } else {
            v[i]
        };
        fixed.push(c);
        proof {
            assert(slashes_fixed(v@.take(i + 1)) =~= slashes_fixed(v@.take(i as int)).push(c));
        }
        i = i + 1;
    }
    proof {
        assert(v@.take(v.len() as int) == v@);
    }
    strip_dot_slash_chars(&fixed)
}

/// `v` without its leading `./` pieces.
pub(crate) fn strip_dot_slash_chars(fixed: &Vec<char>) -> (r: Vec<char>)
    ensures
        r@ == strip_dot_slash(fixed@),
{
    let ghost f = fixed@;
    let mut k: usize = 0;
    proof {
        assert(f.skip(0) =~= f);
    }
    while fixed.len() >= 2 && k <= fixed.len() - 2 && fixed[k] == '.' && fixed[k + 1] == '/'
        invariant
            k <= fixed.len(),
            f == fixed@,
            strip_dot_slash(f) == strip_dot_slash(f.skip(k as int)),
        decreases fixed.len() - k,
    {
        proof {
            lemma_strip_dot_slash_step(f, k as int);
        }
        k = k + 2;
    }
    proof {
        lemma_strip_dot_slash_no_prefix(f.skip(k as int));
    }
    let mut r: Vec<char> = Vec::new();
    let mut j: usize = k;
    while j < fixed.len()
        invariant
            k <= j <= fixed.len(),
            f == fixed@,
            r@ == f.subrange(k as int, j as int),
        decreases fixed.len() - j,
    {
        r.push(fixed[j]);
        proof {
            assert(f.subrange(k as int, j + 1) == f.subrange(k as int, j as int).push(f[j as int]));
        }
        j = j + 1;
    }
    proof {
        assert(f.subrange(k as int, f.len() as int) == f.skip(k as int));
    }
    r
}

/// Normalizes a path or glob pattern to forward slashes and strips leading `./`.
pub fn normalize_glob(pattern: &str) -> (r: String)
    ensures
        r@ == normalized(pattern@),
{
    let v = chars_of(pattern);
    let n = normalize_chars(&v);
    string_of(&n)
}

/// The views of a vector of segments.
pub open spec fn segs_view(v: Seq<Vec<char>>) -> Seq<Seq<char>> {
    v.map_values(|x: Vec<char>| x@)
}

/// Splits a character vector at every `/`.
pub(crate) fn split_segments(v: &Vec<char>) -> (r: Vec<Vec<char>>)
    ensures
        segs_view(r@) == split_slash(v@),
{
    let mut parts: Vec<Vec<char>> = Vec::new();
    let mut cur: Vec<char> = Vec::new();
    let mut i: usize = 0;
    proof {
        assert(v@.take(0) =~= Seq::<char>::empty());
        assert(segs_view(parts@).push(cur@) =~= split_slash(v@.take(0)));
    }
    while i < v.len()
        invariant
            i <= v.len(),
            segs_view(parts@).push(cur@) == split_slash(v@.take(i as int)),
        decreases v.len() - i,
    {
        let ghost prev = split_slash(v@.take(i as int));
        proof {
            assert(v@.take(i + 1).drop_last() =~= v@.take(i as int));
        }
        if v[i] == '/' {
            let done = cur;
            parts.push(done);
            cur = Vec::new();
            proof {
                assert(segs_view(parts@) =~= prev);
                assert(segs_view(parts@).push(cur@) =~= split_slash(v@.take(i + 1)));
            }
        } else {
            cur.push(v[i]);
            proof {
                assert(segs_view(parts@).push(cur@) =~= prev.update(
                    prev.len() - 1,
                    prev.last().push(v@[i as int]),
                ));
            }
        }
        i = i + 1;
    }
    parts.push(cur);
    proof {
        assert(v@.take(v.len() as int) == v@);
        assert(segs_view(parts@) =~= split_slash(v@));
    }
    parts
}

/// Matches one pattern segment against one path segment, from the given positions.
fn match_chars(p: &Vec<char>, pi: usize, t: &Vec<char>, ti: usize) -> (r: bool)
    requires
        pi <= p.len(),
        ti <= t.len(),
    ensures
        r == segment_match(p@, t@, pi as int, ti as int),
    decreases p.len() - pi,
{
    if pi == p.len() {
        return ti == t.len();
    }
    if p[pi] == '*' {
        let mut j: usize = ti;
        loop
            invariant
                ti <= j <= t.len(),
                pi < p.len(),
                p@[pi as int] == '*',
                segment_match(p@, t@, pi as int, ti as int) == star_segment_match(
                    p@,
                    t@,
                    pi as int,
                    j as int,
                ),
            decreases t.len() - j,
        {
            if match_chars(p, pi + 1, t, j) {
                return true;
            }
            if j == t.len() {
                return false;
            }
            j = j + 1;
        }
    }
    if ti == t.len() {
        return false;
    }
    if p[pi] == '?' || p[pi] == t[ti] {
        return match_chars(p, pi + 1, t, ti + 1);
    }
    false
}

/// Matches one pattern segment against one whole path segment: `*` stands
/// for any run of characters and `?` for any one character.
pub(crate) fn match_single_pattern(pat: &Vec<char>, text: &Vec<char>) -> (r: bool)
    ensures
        r == segment_match(pat@, text@, 0, 0),
{
    match_chars(pat, 0, text, 0)
}

/// Matches the pattern segments from `pi` against the path segments from `ti`.
fn match_parts(pat: &Vec<Vec<char>>, pi: usize, tgt: &Vec<Vec<char>>, ti: usize) -> (r: bool)
    requires
        pi <= pat.len(),
        ti <= tgt.len(),
    ensures
        r == parts_match(segs_view(pat@), segs_view(tgt@), pi as int, ti as int),
    decreases pat.len() - pi,
{
    let ghost ps = segs_view(pat@);
    let ghost ts = segs_view(tgt@);
    if pi == pat.len() {
        return ti == tgt.len();
    }
    let is_globstar = chars_eq_str(&pat[pi], "**");
    proof {
        lemma_literals();
        assert(ps[pi as int] == pat@[pi as int]@);
    }
    if is_globstar {
        let mut j: usize = ti;
        loop
            invariant
                ti <= j <= tgt.len(),
                pi < pat.len(),
                ps == segs_view(pat@),
                ts == segs_view(tgt@),
                ps[pi as int] == seq!['*', '*'],
                parts_match(ps, ts, pi as int, ti as int) == star_parts_match(
                    ps,
                    ts,
                    pi as int,
                    j as int,
                ),
            decreases tgt.len() - j,
        {
            if match_parts(pat, pi + 1, tgt, j) {
                return true;
            }
            if j == tgt.len() {
                return false;
            }
            j = j + 1;
        }
    }
    if ti == tgt.len() {
        return false;
    }
    proof {
        assert(ts[ti as int] == tgt@[ti as int]@);
    }
    if match_single_pattern(&pat[pi], &tgt[ti]) {
        return match_parts(pat, pi + 1, tgt, ti + 1);
    }
    false
}

/// Matches a normalized pattern against a normalized path, segment by segment.
fn match_segments(pat: &Vec<char>, target: &Vec<char>) -> (r: bool)
    ensures
        r == parts_match(split_slash(pat@), split_slash(target@), 0, 0),
{
    let pat_parts = split_segments(pat);
    let tgt_parts = split_segments(target);
    match_parts(&pat_parts, 0, &tgt_parts, 0)
}

/// Glob matching on character vectors; both sides are normalized first.
pub(crate) fn glob_match_chars(pattern: &Vec<char>, path: &Vec<char>) -> (r: bool)
    ensures
        r == glob_matches(pattern@, path@),
{
    let pat = normalize_chars(pattern);
    let target = normalize_chars(path);
    proof {
        lemma_literals();
    }
    if chars_eq(&pat, &target) || chars_eq_str(&pat, "**") || chars_eq_str(&pat, ".") || (
    chars_eq_str(&pat, "*") && !contains_char(&target, '/')) {
        return true;
    }
    if pat.len() > 0 && pat[pat.len() - 1] == '/' {
        let prefix = take_chars(&pat, pat.len() - 1);
        let mut with_slash = prefix.clone();
        with_slash.push('/');
        proof {
            assert(prefix@ == pat@.drop_last());
            assert(with_slash@ == pat@.drop_last().push('/'));
        }
        if chars_eq(&target, &prefix) || starts_with_chars(&target, &with_slash) {
            return true;
        }
    }
    match_segments(&pat, &target)
}

/// Matches a file path against a glob pattern (both normalized first).
///
/// `*` matches within one segment, `**` across segments, `?` one character,
/// and a trailing `/` matches the directory and everything under it.
pub fn matches_glob(pattern: &str, path: &str) -> (r: bool)
    ensures
        r == glob_matches(pattern@, path@),
{
    let p = chars_of(pattern);
    let t = chars_of(path);
    glob_match_chars(&p, &t)
}

/// Removes every trailing `c`.
fn trim_end_char_chars(v: &Vec<char>, c: char) -> (r: Vec<char>)
    ensures
        r@ == trim_end_char(v@, c),
{
    let mut n: usize = v.len();
    proof {
        assert(v@.take(n as int) =~= v@);
    }
    while n > 0 && v[n - 1] == c
        invariant
            n <= v.len(),
            trim_end_char(v@, c) == trim_end_char(v@.take(n as int), c),
        decreases n,
    {
        proof {
            assert(v@.take(n as int).drop_last() =~= v@.take(n - 1));
        }
        n = n - 1;
    }
    take_chars(v, n)
}

/// Removes every trailing `/**`.
fn trim_end_globstar_chars(v: &Vec<char>) -> (r: Vec<char>)
    ensures
        r@ == trim_end_globstar(v@),
{
    let mut n: usize = v.len();
    proof {
        assert(v@.take(n as int) =~= v@);
    }
    while n >= 3 && v[n - 3] == '/' && v[n - 2] == '*' && v[n - 1] == '*'
        invariant
            n <= v.len(),
            trim_end_globstar(v@) == trim_end_globstar(v@.take(n as int)),
        decreases n,
    {
        proof {
            let s = v@.take(n as int);
            assert(s.subrange(s.len() - 3, s.len() as int) =~= seq!['/', '*', '*']);
            assert(s.subrange(0, s.len() - 3) =~= v@.take(n - 3));
        }
        n = n - 3;
    }
    proof {
        let s = v@.take(n as int);
        if s.len() >= 3 {
            if s.subrange(s.len() - 3, s.len() as int) == seq!['/', '*', '*'] {
                assert(s.subrange(s.len() - 3, s.len() as int)[0] == s[s.len() - 3]);
                assert(s.subrange(s.len() - 3, s.len() as int)[1] == s[s.len() - 2]);
                assert(s.subrange(s.len() - 3, s.len() as int)[2] == s[s.len() - 1]);
            }
        }
    }
    take_chars(v, n)
}

/// Whether `a` is `b` or lies below it.
fn at_or_below_chars(a: &Vec<char>, b: &Vec<char>) -> (r: bool)
    ensures
        r == at_or_below(a@, b@),
{
    let mut b_slash = b.clone();
    b_slash.push('/');
    chars_eq(a, b) || starts_with_chars(a, &b_slash)
}

/// Checks whether two glob patterns can match overlapping file paths.
pub fn patterns_overlap(pat_a: &str, pat_b: &str) -> (r: bool)
    ensures
        r == globs_overlap(pat_a@, pat_b@),
{
    let a = normalize_chars(&chars_of(pat_a));
    let b = normalize_chars(&chars_of(pat_b));
    proof {
        lemma_literals();
        lemma_patterns_meet_exact(pat_a@, pat_b@);
    }
    if chars_eq(&a, &b) || chars_eq_str(&a, "**") || chars_eq_str(&a, ".") || chars_eq_str(&b, "**")
        || chars_eq_str(&b, ".") {
        return true;
    }
    if glob_match_chars(&a, &b) || glob_match_chars(&b, &a) {
        return true;
    }
    if patterns_meet_run(&a, &b) {
        return true;
    }
    let clean_a = trim_end_globstar_chars(&trim_end_char_chars(&a, '/'));
    let clean_b = trim_end_globstar_chars(&trim_end_char_chars(&b, '/'));
    at_or_below_chars(&clean_a, &clean_b) || at_or_below_chars(&clean_b, &clean_a)
}

} // verus!

verus! {

proof fn lemma_strip_keeps_suffix(s: Seq<char>)
    ensures
        exists|k: int| 0 <= k <= s.len() && strip_dot_slash(s) == s.skip(k),
    decreases s.len(),
{
    if s.len() >= 2 && s[0] == '.' && s[1] == '/' {
        lemma_strip_keeps_suffix(s.skip(2));
        let k = choose|k: int| 0 <= k <= s.skip(2).len() && strip_dot_slash(s.skip(2)) == s.skip(2).skip(k);
        assert(s.skip(2).skip(k) =~= s.skip(k + 2));
    } else {
        assert(s.skip(0) =~= s);
    }
}

proof fn lemma_strip_idempotent(s: Seq<char>)
    ensures
        strip_dot_slash(strip_dot_slash(s)) == strip_dot_slash(s),
    decreases s.len(),
{
    if s.len() >= 2 && s[0] == '.' && s[1] == '/' {
        lemma_strip_idempotent(s.skip(2));
    }
}

/// Normalizing twice gives the same text as normalizing once.
pub proof fn lemma_normalize_idempotent(s: Seq<char>)
    ensures
        normalized(normalized(s)) == normalized(s),
{
    let f = slashes_fixed(s);
    lemma_strip_keeps_suffix(f);
    let k = choose|k: int| 0 <= k <= f.len() && strip_dot_slash(f) == f.skip(k);
    let n = strip_dot_slash(f);
    assert(slashes_fixed(n) =~= n);
    lemma_strip_idempotent(f);
}

/// Every pattern matches its own text.
pub proof fn lemma_pattern_matches_itself(p: Seq<char>)
    ensures
        glob_matches(p, p),
{
}

/// `**` matches every path.
pub proof fn lemma_globstar_matches_all(path: Seq<char>)
    ensures
        glob_matches(seq!['*', '*'], path),
{
    assert(slashes_fixed(seq!['*', '*']) =~= seq!['*', '*']);
}

/// Overlap does not depend on the order of the two patterns.
pub proof fn lemma_overlap_symmetric(a: Seq<char>, b: Seq<char>)
    ensures
        globs_overlap(a, b) == globs_overlap(b, a),
{
    if exists|t: Seq<char>| glob_matches(a, t) && #[trigger] glob_matches(b, t) {
        let t = choose|t: Seq<char>| glob_matches(a, t) && #[trigger] glob_matches(b, t);
        assert(glob_matches(b, t) && glob_matches(a, t));
    }
    if exists|t: Seq<char>| glob_matches(b, t) && #[trigger] glob_matches(a, t) {
        let t = choose|t: Seq<char>| glob_matches(b, t) && #[trigger] glob_matches(a, t);
        assert(glob_matches(a, t) && glob_matches(b, t));
    }
}

/// Every pattern overlaps itself.
pub proof fn lemma_overlap_reflexive(a: Seq<char>)
    ensures
        globs_overlap(a, a),
{
    lemma_pattern_matches_itself(a);
    assert(glob_matches(a, a) && glob_matches(a, a));
}

/// A pattern that matches a path overlaps that path taken as a pattern.
pub proof fn lemma_match_implies_overlap(pattern: Seq<char>, path: Seq<char>)
    requires
        glob_matches(pattern, path),
    ensures
        globs_overlap(pattern, path),
{
    lemma_pattern_matches_itself(path);
    assert(glob_matches(pattern, path) && glob_matches(path, path));
}

} // verus!
