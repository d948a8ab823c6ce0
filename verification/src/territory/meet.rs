//! Whether two glob patterns can match a common path: a search over both
//! patterns at once, first within one segment, then over the segments.
use vstd::prelude::*;
use crate::territory::glob::{
    glob_match_chars, match_single_pattern, segs_view, split_segments, glob_matches, lemma_normalize_idempotent, normalized, parts_match, segment_match, slashes_fixed, split_slash,
    star_parts_match, star_segment_match, strip_dot_slash,
};

use crate::text::{chars_eq, chars_eq_str, starts_with_chars, take_chars};

verus! {

// ---------------------------------------------------------------------------
// Texts a witness is made of
// ---------------------------------------------------------------------------

/// No character of `s` is a separator (`/` or `\`).
pub open spec fn plain_chars(s: Seq<char>) -> bool {
    forall|i: int| 0 <= i < s.len() ==> s[i] != '/' && #[trigger] s[i] != '\\'
}

/// Whether what has been read so far is nothing (0), exactly `.` (1) or
/// anything else (2), after reading `c` in state `s`.
pub open spec fn dot_step(s: int, c: char) -> int {
    if s == 0 {
        if c == '.' {
            1
        } else {
            2
        }
    } else {
        2
    }
}

/// The state after reading all of `w` from state `s`.
pub open spec fn dot_run(s: int, w: Seq<char>) -> int
    decreases w.len(),
{
    if w.len() == 0 {
        s
    } else {
        dot_run(dot_step(s, w[0]), w.drop_first())
    }
}

/// Whether a text that ends in state `s` is acceptable: any text when
/// `dot_ok`, else any text but `.`.
pub open spec fn dot_accepts(s: int, dot_ok: bool) -> bool {
    dot_ok || s != 1
}

/// A text read from the start is in state 1 exactly when it is `.`.
pub proof fn lemma_dot_run_start(w: Seq<char>)
    ensures
        (dot_run(0, w) == 1) == (w == seq!['.']),
        dot_run(0, w) == 0 <==> w.len() == 0,
{
    if w.len() > 0 {
        let r = w.drop_first();
        lemma_dot_run_two(r);
        assert(dot_run(0, w) == dot_run(dot_step(0, w[0]), r));
        if w.len() == 1 {
            assert(r.len() == 0);
            if w[0] == '.' {
                assert(w =~= seq!['.']);
            } else {
                assert(w != seq!['.']);
            }
        } else {
            lemma_dot_run_two(r.drop_first());
            assert(dot_run(1, r) == dot_run(2, r.drop_first()));
            assert(w.len() != seq!['.'].len());
        }
    } else {
        assert(w != seq!['.']);
    }
}

proof fn lemma_dot_run_two(w: Seq<char>)
    ensures
        dot_run(2, w) == 2,
    decreases w.len(),
{
    if w.len() > 0 {
        lemma_dot_run_two(w.drop_first());
    }
}

// ---------------------------------------------------------------------------
// Facts on matching one segment
// ---------------------------------------------------------------------------

/// A `*` either ends, or takes one more character and stays.
pub proof fn lemma_star_step(p: Seq<char>, t: Seq<char>, pi: int, ti: int)
    requires
        0 <= pi < p.len(),
        p[pi] == '*',
        0 <= ti <= t.len(),
    ensures
        segment_match(p, t, pi, ti) == (segment_match(p, t, pi + 1, ti) || (ti < t.len()
            && segment_match(p, t, pi, ti + 1))),
{
    assert(segment_match(p, t, pi, ti) == star_segment_match(p, t, pi, ti));
    assert(star_segment_match(p, t, pi, ti) == (segment_match(p, t, pi + 1, ti) || (ti < t.len()
        && star_segment_match(p, t, pi, ti + 1))));
    if ti < t.len() {
        assert(segment_match(p, t, pi, ti + 1) == star_segment_match(p, t, pi, ti + 1));
    }
}

/// Matching after one more leading character is matching one position on.
pub proof fn lemma_segment_shift(p: Seq<char>, t: Seq<char>, c: char, pi: int, ti: int)
    requires
        0 <= pi,
        0 <= ti,
    ensures
        segment_match(p, seq![c] + t, pi, ti + 1) == segment_match(p, t, pi, ti),
        star_segment_match(p, seq![c] + t, pi, ti + 1) == star_segment_match(p, t, pi, ti),
    decreases p.len() - pi, t.len() + 1 - ti,
{
    let u = seq![c] + t;
    assert(u.len() == t.len() + 1);
    if pi < p.len() {
        if ti < t.len() {
            lemma_segment_shift(p, t, c, pi, ti + 1);
            lemma_segment_shift(p, t, c, pi + 1, ti + 1);
            assert(u[ti + 1] == t[ti]);
        }
        lemma_segment_shift(p, t, c, pi + 1, ti);
        assert(star_segment_match(p, u, pi, ti + 1) == star_segment_match(p, t, pi, ti));
        if p[pi] == '*' {
            assert(segment_match(p, u, pi, ti + 1) == (ti + 1 <= u.len() && star_segment_match(p, u, pi, ti + 1)));
            assert(segment_match(p, t, pi, ti) == (ti <= t.len() && star_segment_match(p, t, pi, ti)));
        } else if ti < t.len() {
            assert(segment_match(p, u, pi, ti + 1) == ((p[pi] == '?' || p[pi] == u[ti + 1]) && segment_match(p, u, pi + 1, ti + 2)));
        }
    }
}

// ---------------------------------------------------------------------------
// Two patterns within one segment
// ---------------------------------------------------------------------------

/// Whether `p[x]` is a `*`.
pub open spec fn is_star(p: Seq<char>, x: int) -> bool {
    0 <= x < p.len() && p[x] == '*'
}

/// Whether pattern characters `a` and `b` (each `?` or itself) can stand
/// for one same character.
pub open spec fn chars_meet(a: char, b: char) -> bool {
    a == '?' || b == '?' || a == b
}

/// The character that `a` and `b` then stand for (`a` where neither says).
pub open spec fn meet_char(a: char, b: char) -> char {
    if a != '?' {
        a
    } else if b != '?' {
        b
    } else {
        'a'
    }
}

/// Whether some text matches `pa` from `x` and `pb` from `y` and, read
/// from state `s`, is acceptable by `d` (see [`dot_accepts`]).
pub open spec fn seg_meet(pa: Seq<char>, pb: Seq<char>, x: int, y: int, s: int, d: bool) -> bool
    decreases (pa.len() - x) + (pb.len() - y), 2 - s,
{
    if !(0 <= x <= pa.len() && 0 <= y <= pb.len() && 0 <= s <= 2) {
        false
    } else if x == pa.len() && y == pb.len() {
        dot_accepts(s, d)
    } else {
        let sa = is_star(pa, x);
        let sb = is_star(pb, y);
        ||| (sa && seg_meet(pa, pb, x + 1, y, s, d))
        ||| (sb && seg_meet(pa, pb, x, y + 1, s, d))
        ||| (sa && sb && s != 2 && seg_meet(pa, pb, x, y, 2, d))
        ||| (x < pa.len() && !sa && y < pb.len() && !sb && chars_meet(pa[x], pb[y]) && seg_meet(
            pa,
            pb,
            x + 1,
            y + 1,
            dot_step(s, meet_char(pa[x], pb[y])),
            d,
        ))
        ||| (x < pa.len() && !sa && sb && seg_meet(pa, pb, x + 1, y, dot_step(s, meet_char(pa[x], '?')), d))
        ||| (sa && y < pb.len() && !sb && seg_meet(pa, pb, x, y + 1, dot_step(s, meet_char('?', pb[y])), d))
    }
}

/// Having read more than nothing-or-a-dot never hurts.
proof fn lemma_seg_meet_two(pa: Seq<char>, pb: Seq<char>, x: int, y: int, s: int, d: bool)
    requires
        seg_meet(pa, pb, x, y, s, d),
    ensures
        seg_meet(pa, pb, x, y, 2, d),
    decreases (pa.len() - x) + (pb.len() - y), 2 - s,
{
    if s != 2 && !(x == pa.len() && y == pb.len()) {
        let sa = is_star(pa, x);
        let sb = is_star(pb, y);
        if sa && seg_meet(pa, pb, x + 1, y, s, d) {
            lemma_seg_meet_two(pa, pb, x + 1, y, s, d);
        } else if sb && seg_meet(pa, pb, x, y + 1, s, d) {
            lemma_seg_meet_two(pa, pb, x, y + 1, s, d);
        } else if sa && sb && seg_meet(pa, pb, x, y, 2, d) {
        } else if x < pa.len() && !sa && y < pb.len() && !sb && chars_meet(pa[x], pb[y]) && seg_meet(
            pa,
            pb,
            x + 1,
            y + 1,
            dot_step(s, meet_char(pa[x], pb[y])),
            d,
        ) {
            lemma_seg_meet_two(pa, pb, x + 1, y + 1, dot_step(s, meet_char(pa[x], pb[y])), d);
        } else if x < pa.len() && !sa && sb && seg_meet(pa, pb, x + 1, y, dot_step(s, meet_char(pa[x], '?')), d) {
            lemma_seg_meet_two(pa, pb, x + 1, y, dot_step(s, meet_char(pa[x], '?')), d);
        } else {
            lemma_seg_meet_two(pa, pb, x, y + 1, dot_step(s, meet_char('?', pb[y])), d);
        }
    }
}

/// A search that succeeds has a witness: a plain text that both patterns
/// match and that is acceptable.
pub proof fn lemma_seg_meet_sound(pa: Seq<char>, pb: Seq<char>, x: int, y: int, s: int, d: bool) -> (w: Seq<char>)
    requires
        seg_meet(pa, pb, x, y, s, d),
        plain_chars(pa),
        plain_chars(pb),
    ensures
        plain_chars(w),
        segment_match(pa, w, x, 0),
        segment_match(pb, w, y, 0),
        dot_accepts(dot_run(s, w), d),
    decreases (pa.len() - x) + (pb.len() - y), 2 - s,
{
    if x == pa.len() && y == pb.len() {
        Seq::empty()
    } else {
        let sa = is_star(pa, x);
        let sb = is_star(pb, y);
        if sa && seg_meet(pa, pb, x + 1, y, s, d) {
            let w = lemma_seg_meet_sound(pa, pb, x + 1, y, s, d);
            lemma_star_step(pa, w, x, 0);
            w
        } else if sb && seg_meet(pa, pb, x, y + 1, s, d) {
            let w = lemma_seg_meet_sound(pa, pb, x, y + 1, s, d);
            lemma_star_step(pb, w, y, 0);
            w
        } else {
            let (nx, ny, c) = if sa && sb && s != 2 && seg_meet(pa, pb, x, y, 2, d) {
                (x, y, 'a')
            } else if x < pa.len() && !sa && y < pb.len() && !sb && chars_meet(pa[x], pb[y])
                && seg_meet(pa, pb, x + 1, y + 1, dot_step(s, meet_char(pa[x], pb[y])), d) {
                (x + 1, y + 1, meet_char(pa[x], pb[y]))
            } else if x < pa.len() && !sa && sb && seg_meet(
                pa,
                pb,
                x + 1,
                y,
                dot_step(s, meet_char(pa[x], '?')),
                d,
            ) {
                (x + 1, y, meet_char(pa[x], '?'))
            } else {
                (x, y + 1, meet_char('?', pb[y]))
            };
            let rest = lemma_seg_meet_sound(pa, pb, nx, ny, dot_step(s, c), d);
            let w = seq![c] + rest;
            assert(w.drop_first() =~= rest);
            assert(w[0] == c);
            lemma_segment_shift(pa, rest, c, nx, 0);
            lemma_segment_shift(pb, rest, c, ny, 0);
            if nx == x {
                lemma_star_step(pa, w, x, 0);
            }
            if ny == y {
                lemma_star_step(pb, w, y, 0);
            }
            assert(plain_chars(w)) by {
                assert forall|i: int| 0 <= i < w.len() implies w[i] != '/' && #[trigger] w[i] != '\\' by {
                    if i > 0 {
                        assert(w[i] == rest[i - 1]);
                    }
                }
            }
            w
        }
    }
}

/// A text that both patterns match, and that is acceptable, makes the
/// search succeed.
pub proof fn lemma_seg_meet_complete(
    pa: Seq<char>,
    pb: Seq<char>,
    w: Seq<char>,
    x: int,
    y: int,
    i: int,
    s: int,
    d: bool,
)
    requires
        0 <= x <= pa.len(),
        0 <= y <= pb.len(),
        0 <= i <= w.len(),
        0 <= s <= 2,
        segment_match(pa, w, x, i),
        segment_match(pb, w, y, i),
        dot_accepts(dot_run(s, w.skip(i)), d),
    ensures
        seg_meet(pa, pb, x, y, s, d),
    decreases (pa.len() - x) + (pb.len() - y) + (w.len() - i),
{
    let sa = is_star(pa, x);
    let sb = is_star(pb, y);
    if sa {
        lemma_star_step(pa, w, x, i);
    }
    if sb {
        lemma_star_step(pb, w, y, i);
    }
    if x == pa.len() && y == pb.len() {
        assert(w.skip(i).len() == 0);
    } else if sa && segment_match(pa, w, x + 1, i) {
        lemma_seg_meet_complete(pa, pb, w, x + 1, y, i, s, d);
    } else if sb && segment_match(pb, w, y + 1, i) {
        lemma_seg_meet_complete(pa, pb, w, x, y + 1, i, s, d);
    } else {
        assert(i < w.len());
        let c = w[i];
        let s1 = dot_step(s, c);
        assert(w.skip(i).drop_first() =~= w.skip(i + 1));
        assert(w.skip(i)[0] == c);
        assert(dot_run(s, w.skip(i)) == dot_run(s1, w.skip(i + 1)));
        if sa && sb {
            lemma_seg_meet_complete(pa, pb, w, x, y, i + 1, s1, d);
            lemma_seg_meet_two(pa, pb, x, y, s1, d);
        } else if sa {
            lemma_seg_meet_complete(pa, pb, w, x, y + 1, i + 1, s1, d);
            lemma_seg_meet_two(pa, pb, x, y + 1, s1, d);
        } else if sb {
            lemma_seg_meet_complete(pa, pb, w, x + 1, y, i + 1, s1, d);
            lemma_seg_meet_two(pa, pb, x + 1, y, s1, d);
        } else {
            lemma_seg_meet_complete(pa, pb, w, x + 1, y + 1, i + 1, s1, d);
            lemma_seg_meet_two(pa, pb, x + 1, y + 1, s1, d);
        }
    }
}

// ---------------------------------------------------------------------------
// Facts on matching segments
// ---------------------------------------------------------------------------

/// A lone `*` matches any text.
pub proof fn lemma_star_matches_all(w: Seq<char>, ti: int)
    requires
        0 <= ti <= w.len(),
    ensures
        segment_match(seq!['*'], w, 0, ti),
    decreases w.len() - ti,
{
    lemma_star_step(seq!['*'], w, 0, ti);
    if ti < w.len() {
        lemma_star_matches_all(w, ti + 1);
    }
}

/// A `**` either ends, or takes one more segment and stays.
pub proof fn lemma_globstar_step(pat: Seq<Seq<char>>, tgt: Seq<Seq<char>>, pi: int, ti: int)
    requires
        0 <= pi < pat.len(),
        pat[pi] == seq!['*', '*'],
        0 <= ti <= tgt.len(),
    ensures
        parts_match(pat, tgt, pi, ti) == (parts_match(pat, tgt, pi + 1, ti) || (ti < tgt.len()
            && parts_match(pat, tgt, pi, ti + 1))),
{
    assert(parts_match(pat, tgt, pi, ti) == star_parts_match(pat, tgt, pi, ti));
    assert(star_parts_match(pat, tgt, pi, ti) == (parts_match(pat, tgt, pi + 1, ti) || (ti < tgt.len()
        && star_parts_match(pat, tgt, pi, ti + 1))));
    if ti < tgt.len() {
        assert(parts_match(pat, tgt, pi, ti + 1) == star_parts_match(pat, tgt, pi, ti + 1));
    }
}

/// Matching after one more leading segment is matching one position on.
pub proof fn lemma_parts_shift(pat: Seq<Seq<char>>, tgt: Seq<Seq<char>>, w: Seq<char>, pi: int, ti: int)
    requires
        0 <= pi,
        0 <= ti,
    ensures
        parts_match(pat, seq![w] + tgt, pi, ti + 1) == parts_match(pat, tgt, pi, ti),
        star_parts_match(pat, seq![w] + tgt, pi, ti + 1) == star_parts_match(pat, tgt, pi, ti),
    decreases pat.len() - pi, tgt.len() + 1 - ti,
{
    let u = seq![w] + tgt;
    assert(u.len() == tgt.len() + 1);
    if pi < pat.len() {
        if ti < tgt.len() {
            lemma_parts_shift(pat, tgt, w, pi, ti + 1);
            lemma_parts_shift(pat, tgt, w, pi + 1, ti + 1);
            assert(u[ti + 1] == tgt[ti]);
        }
        lemma_parts_shift(pat, tgt, w, pi + 1, ti);
        assert(star_parts_match(pat, u, pi, ti + 1) == star_parts_match(pat, tgt, pi, ti));
        if pat[pi] == seq!['*', '*'] {
            assert(parts_match(pat, u, pi, ti + 1) == (ti + 1 <= u.len() && star_parts_match(pat, u, pi, ti + 1)));
            assert(parts_match(pat, tgt, pi, ti) == (ti <= tgt.len() && star_parts_match(pat, tgt, pi, ti)));
        } else if ti < tgt.len() {
            assert(parts_match(pat, u, pi, ti + 1) == (segment_match(pat[pi], u[ti + 1], 0, 0) && parts_match(pat, u, pi + 1, ti + 2)));
        }
    }
}

// ---------------------------------------------------------------------------
// Two patterns over the segments of a path
// ---------------------------------------------------------------------------

/// Every segment is plain text.
pub open spec fn plain_segs(l: Seq<Seq<char>>) -> bool {
    forall|k: int| 0 <= k < l.len() ==> plain_chars(#[trigger] l[k])
}

/// What the segments read so far say of the path they make: nothing yet
/// (0), only the segment `.` (1), a path that does not start with `./`
/// (2), or one that does (3), after reading segment `w` in state `f`.
pub open spec fn lead_step(f: int, w: Seq<char>) -> int {
    if f == 0 {
        if w == seq!['.'] {
            1
        } else {
            2
        }
    } else if f == 1 {
        3
    } else {
        f
    }
}

/// The state after reading all of `l` from state `f`.
pub open spec fn lead_run(f: int, l: Seq<Seq<char>>) -> int
    decreases l.len(),
{
    if l.len() == 0 {
        f
    } else {
        lead_run(lead_step(f, l[0]), l.drop_first())
    }
}

/// Whether a path in state `f` is one that some path normalizes to: it has
/// a segment and does not start with `./`.
pub open spec fn lead_accepts(f: int) -> bool {
    f == 1 || f == 2
}

/// Whether `p[i]` is a `**` segment.
pub open spec fn is_globstar(p: Seq<Seq<char>>, i: int) -> bool {
    0 <= i < p.len() && p[i] == seq!['*', '*']
}

/// Whether some segments, matched by `pa_s` from `i` and by `pb_s` from
/// `j` and read from state `f`, make an acceptable path.
pub open spec fn parts_meet(pa_s: Seq<Seq<char>>, pb_s: Seq<Seq<char>>, i: int, j: int, f: int) -> bool
    decreases (pa_s.len() - i) + (pb_s.len() - j), 2 - f,
{
    if !(0 <= i <= pa_s.len() && 0 <= j <= pb_s.len() && 0 <= f <= 2) {
        false
    } else if i == pa_s.len() && j == pb_s.len() {
        lead_accepts(f)
    } else {
        let ga = is_globstar(pa_s, i);
        let gb = is_globstar(pb_s, j);
        ||| (ga && parts_meet(pa_s, pb_s, i + 1, j, f))
        ||| (gb && parts_meet(pa_s, pb_s, i, j + 1, f))
        ||| (f == 0 && ga && gb && parts_meet(pa_s, pb_s, i, j, 2))
        ||| (i < pa_s.len() && !ga && j < pb_s.len() && !gb && f != 1 && ((seg_meet(pa_s[i], pb_s[j], 0, 0, 0, f == 2) && parts_meet(pa_s, pb_s, i + 1, j + 1, 2))
            || (f == 0 && segment_match(pa_s[i], seq!['.'], 0, 0) && segment_match(pb_s[j], seq!['.'], 0, 0)
            && parts_meet(pa_s, pb_s, i + 1, j + 1, 1))))
        ||| (i < pa_s.len() && !ga && gb && f != 1 && ((seg_meet(pa_s[i], seq!['*'], 0, 0, 0, f == 2) && parts_meet(pa_s, pb_s, i + 1, j, 2))
            || (f == 0 && segment_match(pa_s[i], seq!['.'], 0, 0) && segment_match(seq!['*'], seq!['.'], 0, 0)
            && parts_meet(pa_s, pb_s, i + 1, j, 1))))
        ||| (ga && j < pb_s.len() && !gb && f != 1 && ((seg_meet(seq!['*'], pb_s[j], 0, 0, 0, f == 2) && parts_meet(pa_s, pb_s, i, j + 1, 2))
            || (f == 0 && segment_match(seq!['*'], seq!['.'], 0, 0) && segment_match(pb_s[j], seq!['.'], 0, 0)
            && parts_meet(pa_s, pb_s, i, j + 1, 1))))
    }
}

proof fn lemma_lead_run_three(l: Seq<Seq<char>>)
    ensures
        lead_run(3, l) == 3,
    decreases l.len(),
{
    if l.len() > 0 {
        lemma_lead_run_three(l.drop_first());
    }
}

/// A search that may end on any text succeeds where one that must not end
/// on `.` does.
proof fn lemma_seg_meet_any(pa: Seq<char>, pb: Seq<char>)
    requires
        seg_meet(pa, pb, 0, 0, 0, false),
        plain_chars(pa),
        plain_chars(pb),
    ensures
        seg_meet(pa, pb, 0, 0, 0, true),
{
    let w = lemma_seg_meet_sound(pa, pb, 0, 0, 0, false);
    assert(w.skip(0) =~= w);
    lemma_seg_meet_complete(pa, pb, w, 0, 0, 0, 0, true);
}

/// Having read a path that does not start with `./` never hurts.
proof fn lemma_parts_meet_two(pa_s: Seq<Seq<char>>, pb_s: Seq<Seq<char>>, i: int, j: int, f: int)
    requires
        parts_meet(pa_s, pb_s, i, j, f),
        plain_segs(pa_s),
        plain_segs(pb_s),
    ensures
        parts_meet(pa_s, pb_s, i, j, 2),
    decreases (pa_s.len() - i) + (pb_s.len() - j), 2 - f,
{
    if f != 2 && !(i == pa_s.len() && j == pb_s.len()) {
        let ga = is_globstar(pa_s, i);
        let gb = is_globstar(pb_s, j);
        if ga && parts_meet(pa_s, pb_s, i + 1, j, f) {
            lemma_parts_meet_two(pa_s, pb_s, i + 1, j, f);
        } else if gb && parts_meet(pa_s, pb_s, i, j + 1, f) {
            lemma_parts_meet_two(pa_s, pb_s, i, j + 1, f);
        } else if f == 0 && ga && gb && parts_meet(pa_s, pb_s, i, j, 2) {
        } else {
            let (pa, pb, ni, nj) = if i < pa_s.len() && !ga && j < pb_s.len() && !gb {
                (pa_s[i], pb_s[j], i + 1, j + 1)
            } else if i < pa_s.len() && !ga && gb {
                (pa_s[i], seq!['*'], i + 1, j)
            } else {
                (seq!['*'], pb_s[j], i, j + 1)
            };
            assert(plain_chars(pa) && plain_chars(pb)) by {
                if i < pa_s.len() {
                    assert(plain_chars(pa_s[i]));
                }
                if j < pb_s.len() {
                    assert(plain_chars(pb_s[j]));
                }
            }
            if seg_meet(pa, pb, 0, 0, 0, f == 2) && parts_meet(pa_s, pb_s, ni, nj, 2) {
                lemma_seg_meet_any(pa, pb);
            } else {
                lemma_parts_meet_two(pa_s, pb_s, ni, nj, 1);
                assert(seq!['.'].skip(0) =~= seq!['.']);
                lemma_seg_meet_complete(pa, pb, seq!['.'], 0, 0, 0, 0, true);
            }
        }
    }
}

/// A search over the segments that succeeds has a witness: plain segments
/// that both patterns match and that make an acceptable path.
pub proof fn lemma_parts_meet_sound(pa_s: Seq<Seq<char>>, pb_s: Seq<Seq<char>>, i: int, j: int, f: int) -> (l: Seq<Seq<char>>)
    requires
        parts_meet(pa_s, pb_s, i, j, f),
        plain_segs(pa_s),
        plain_segs(pb_s),
    ensures
        plain_segs(l),
        parts_match(pa_s, l, i, 0),
        parts_match(pb_s, l, j, 0),
        lead_accepts(lead_run(f, l)),
    decreases (pa_s.len() - i) + (pb_s.len() - j), 2 - f,
{
    if i == pa_s.len() && j == pb_s.len() {
        Seq::empty()
    } else {
        let ga = is_globstar(pa_s, i);
        let gb = is_globstar(pb_s, j);
        if ga && parts_meet(pa_s, pb_s, i + 1, j, f) {
            let l = lemma_parts_meet_sound(pa_s, pb_s, i + 1, j, f);
            lemma_globstar_step(pa_s, l, i, 0);
            l
        } else if gb && parts_meet(pa_s, pb_s, i, j + 1, f) {
            let l = lemma_parts_meet_sound(pa_s, pb_s, i, j + 1, f);
            lemma_globstar_step(pb_s, l, j, 0);
            l
        } else {
            let (pa, pb, ni, nj) = if f == 0 && ga && gb && parts_meet(pa_s, pb_s, i, j, 2) {
                (seq!['*'], seq!['*'], i, j)
            } else if i < pa_s.len() && !ga && j < pb_s.len() && !gb {
                (pa_s[i], pb_s[j], i + 1, j + 1)
            } else if i < pa_s.len() && !ga && gb {
                (pa_s[i], seq!['*'], i + 1, j)
            } else {
                (seq!['*'], pb_s[j], i, j + 1)
            };
            assert(plain_chars(pa) && plain_chars(pb)) by {
                if i < pa_s.len() {
                    assert(plain_chars(pa_s[i]));
                }
                if j < pb_s.len() {
                    assert(plain_chars(pb_s[j]));
                }
            }
            let (w, rest) = if f == 0 && ga && gb && parts_meet(pa_s, pb_s, i, j, 2) {
                let rest = lemma_parts_meet_sound(pa_s, pb_s, i, j, 2);
                assert(seq!['a'] != seq!['.']) by {
                    assert(seq!['a'][0] != seq!['.'][0]);
                }
                (seq!['a'], rest)
            } else if seg_meet(pa, pb, 0, 0, 0, f == 2) && parts_meet(pa_s, pb_s, ni, nj, 2) {
                let w = lemma_seg_meet_sound(pa, pb, 0, 0, 0, f == 2);
                lemma_dot_run_start(w);
                let rest = lemma_parts_meet_sound(pa_s, pb_s, ni, nj, 2);
                (w, rest)
            } else {
                let rest = lemma_parts_meet_sound(pa_s, pb_s, ni, nj, 1);
                (seq!['.'], rest)
            };
            let l = seq![w] + rest;
            assert(l.drop_first() =~= rest);
            assert(l[0] == w);
            lemma_parts_shift(pa_s, rest, w, ni, 0);
            lemma_parts_shift(pb_s, rest, w, nj, 0);
            if ni == i {
                lemma_globstar_step(pa_s, l, i, 0);
            }
            if nj == j {
                lemma_globstar_step(pb_s, l, j, 0);
            }
            assert(plain_segs(l)) by {
                assert forall|k: int| 0 <= k < l.len() implies plain_chars(#[trigger] l[k]) by {
                    if k > 0 {
                        assert(l[k] == rest[k - 1]);
                    } else {
                        assert(plain_chars(seq!['a'])) by {
                            assert(seq!['a'][0] == 'a');
                        }
                        assert(plain_chars(seq!['.'])) by {
                            assert(seq!['.'][0] == '.');
                        }
                    }
                }
            }
            l
        }
    }
}

/// Segments that both patterns match, and that make an acceptable path,
/// make the search succeed.
pub proof fn lemma_parts_meet_complete(
    pa_s: Seq<Seq<char>>,
    pb_s: Seq<Seq<char>>,
    l: Seq<Seq<char>>,
    i: int,
    j: int,
    k: int,
    f: int,
)
    requires
        0 <= i <= pa_s.len(),
        0 <= j <= pb_s.len(),
        0 <= k <= l.len(),
        0 <= f <= 2,
        plain_segs(pa_s),
        plain_segs(pb_s),
        parts_match(pa_s, l, i, k),
        parts_match(pb_s, l, j, k),
        lead_accepts(lead_run(f, l.skip(k))),
    ensures
        parts_meet(pa_s, pb_s, i, j, f),
    decreases (pa_s.len() - i) + (pb_s.len() - j) + (l.len() - k),
{
    let ga = is_globstar(pa_s, i);
    let gb = is_globstar(pb_s, j);
    if ga {
        lemma_globstar_step(pa_s, l, i, k);
    }
    if gb {
        lemma_globstar_step(pb_s, l, j, k);
    }
    if i == pa_s.len() && j == pb_s.len() {
        assert(l.skip(k).len() == 0);
    } else if ga && parts_match(pa_s, l, i + 1, k) {
        lemma_parts_meet_complete(pa_s, pb_s, l, i + 1, j, k, f);
    } else if gb && parts_match(pb_s, l, j + 1, k) {
        lemma_parts_meet_complete(pa_s, pb_s, l, i, j + 1, k, f);
    } else {
        assert(k < l.len());
        let w = l[k];
        let f1 = lead_step(f, w);
        assert(l.skip(k).drop_first() =~= l.skip(k + 1));
        assert(l.skip(k)[0] == w);
        assert(lead_run(f, l.skip(k)) == lead_run(f1, l.skip(k + 1)));
        if f == 1 {
            lemma_lead_run_three(l.skip(k + 1));
        }
        let (pa, ni) = if ga {
            lemma_star_matches_all(w, 0);
            (seq!['*'], i)
        } else {
            (pa_s[i], i + 1)
        };
        let (pb, nj) = if gb {
            lemma_star_matches_all(w, 0);
            (seq!['*'], j)
        } else {
            (pb_s[j], j + 1)
        };
        assert(segment_match(pa, w, 0, 0) && segment_match(pb, w, 0, 0));
        lemma_parts_meet_complete(pa_s, pb_s, l, ni, nj, k + 1, f1);
        assert(w.skip(0) =~= w);
        lemma_dot_run_start(w);
        if ga && gb {
            if f == 0 {
                lemma_parts_meet_two(pa_s, pb_s, i, j, f1);
            }
        } else if f == 2 {
            lemma_seg_meet_complete(pa, pb, w, 0, 0, 0, 0, true);
        } else if w == seq!['.'] {
        } else {
            lemma_seg_meet_complete(pa, pb, w, 0, 0, 0, 0, false);
        }
    }
}

// ---------------------------------------------------------------------------
// Paths and their segments
// ---------------------------------------------------------------------------

/// No character is a backslash.
pub open spec fn no_backslash(t: Seq<char>) -> bool {
    forall|i: int| 0 <= i < t.len() ==> #[trigger] t[i] != '\\'
}

/// Whether `t` starts with `./`.
pub open spec fn dot_slash_led(t: Seq<char>) -> bool {
    t.len() >= 2 && t[0] == '.' && t[1] == '/'
}

/// The texts that normalizing leaves as they are: no backslash, no
/// leading `./`.
pub open spec fn in_normal_form(t: Seq<char>) -> bool {
    no_backslash(t) && !dot_slash_led(t)
}

proof fn lemma_strip_normal(s: Seq<char>)
    requires
        no_backslash(s),
    ensures
        in_normal_form(strip_dot_slash(s)),
    decreases s.len(),
{
    if dot_slash_led(s) {
        assert forall|i: int| 0 <= i < s.skip(2).len() implies #[trigger] s.skip(2)[i] != '\\' by {
            assert(s.skip(2)[i] == s[i + 2]);
        }
        lemma_strip_normal(s.skip(2));
    }
}

/// What normalizing gives is in normal form, and normalizing leaves a
/// text in normal form as it is.
pub proof fn lemma_normal_form(s: Seq<char>)
    ensures
        in_normal_form(normalized(s)),
        in_normal_form(s) ==> normalized(s) == s,
{
    let f = slashes_fixed(s);
    assert(no_backslash(f));
    lemma_strip_normal(f);
    if in_normal_form(s) {
        assert(f =~= s);
    }
}

proof fn lemma_split_nonempty(s: Seq<char>)
    ensures
        split_slash(s).len() >= 1,
    decreases s.len(),
{
    if s.len() > 0 {
        lemma_split_nonempty(s.drop_last());
    }
}

/// A text without `/` is one segment.
proof fn lemma_split_single(w: Seq<char>)
    requires
        forall|i: int| 0 <= i < w.len() ==> #[trigger] w[i] != '/',
    ensures
        split_slash(w) == seq![w],
    decreases w.len(),
{
    if w.len() > 0 {
        let w0 = w.drop_last();
        lemma_split_single(w0);
        assert(w0.push(w.last()) =~= w);
        assert(split_slash(w) =~= seq![w]);
    } else {
        assert(w =~= Seq::<char>::empty());
    }
}

/// The segments of `a/b` are those of `a` followed by those of `b`.
proof fn lemma_split_concat(a: Seq<char>, b: Seq<char>)
    ensures
        split_slash(a + seq!['/'] + b) == split_slash(a) + split_slash(b),
    decreases b.len(),
{
    let s = a + seq!['/'] + b;
    lemma_split_nonempty(a);
    if b.len() == 0 {
        assert(s.drop_last() =~= a);
        assert(s.last() == '/');
        assert(split_slash(s) =~= split_slash(a) + split_slash(b));
    } else {
        let b0 = b.drop_last();
        lemma_split_concat(a, b0);
        lemma_split_nonempty(b0);
        assert(s.drop_last() =~= a + seq!['/'] + b0);
        assert(s.last() == b.last());
        assert(split_slash(s) =~= split_slash(a) + split_slash(b));
    }
}

/// Segments of a text without backslashes are plain, and a text whose
/// first segment is `.` followed by more starts with `./`.
proof fn lemma_split_facts(t: Seq<char>)
    ensures
        split_slash(t).len() >= 1,
        split_slash(t).len() == 1 ==> split_slash(t)[0] == t,
        (split_slash(t).len() >= 2 && split_slash(t)[0] == seq!['.']) ==> dot_slash_led(t),
        no_backslash(t) ==> plain_segs(split_slash(t)),
    decreases t.len(),
{
    if t.len() > 0 {
        let t0 = t.drop_last();
        lemma_split_facts(t0);
        let s0 = split_slash(t0);
        let s = split_slash(t);
        assert(t0.push(t.last()) =~= t);
        if no_backslash(t) {
            assert(no_backslash(t0)) by {
                assert forall|i: int| 0 <= i < t0.len() implies #[trigger] t0[i] != '\\' by {
                    assert(t0[i] == t[i]);
                }
            }
        }
        if t.last() == '/' {
            assert(s == s0.push(Seq::<char>::empty()));
            if s0.len() == 1 && s0[0] == seq!['.'] {
                assert(t[0] == t0[0] && t[1] == '/');
            }
            if s0.len() >= 2 && s0[0] == seq!['.'] {
                assert(t[0] == t0[0] && t[1] == t0[1]);
            }
            if no_backslash(t) {
                assert forall|k: int| 0 <= k < s.len() implies plain_chars(#[trigger] s[k]) by {
                    if k < s0.len() {
                        assert(s[k] == s0[k]);
                    }
                }
            }
        } else {
            assert(s == s0.update(s0.len() - 1, s0.last().push(t.last())));
            if s0.len() >= 2 && s0[0] == seq!['.'] {
                assert(s[0] == s0[0]);
                assert(t[0] == t0[0] && t[1] == t0[1]);
            }
            if no_backslash(t) {
                assert forall|k: int| 0 <= k < s.len() implies plain_chars(#[trigger] s[k]) by {
                    if k < s0.len() - 1 {
                        assert(s[k] == s0[k]);
                    } else {
                        let w = s0.last().push(t.last());
                        assert(plain_chars(s0[s0.len() - 1]));
                        assert forall|i: int| 0 <= i < w.len() implies w[i] != '/' && #[trigger] w[i] != '\\' by {
                            if i < w.len() - 1 {
                                assert(w[i] == s0.last()[i]);
                            } else {
                                assert(t[t.len() - 1] != '\\');
                            }
                        }
                    }
                }
            }
        }
    } else {
        assert(t =~= Seq::<char>::empty());
        assert(split_slash(t) =~= seq![t]);
    }
}

/// The path made of segments `l`, with `/` between them.
pub open spec fn join_segs(l: Seq<Seq<char>>) -> Seq<char>
    decreases l.len(),
{
    if l.len() == 0 {
        Seq::empty()
    } else if l.len() == 1 {
        l[0]
    } else {
        l[0] + seq!['/'] + join_segs(l.drop_first())
    }
}

/// Plain segments joined split back into themselves, make a text without
/// backslashes, and start with `./` only when the first is `.` and more
/// follow.
proof fn lemma_join_facts(l: Seq<Seq<char>>)
    requires
        l.len() >= 1,
        plain_segs(l),
    ensures
        split_slash(join_segs(l)) == l,
        no_backslash(join_segs(l)),
        dot_slash_led(join_segs(l)) ==> l.len() >= 2 && l[0] == seq!['.'],
    decreases l.len(),
{
    assert(plain_chars(l[0]));
    if l.len() == 1 {
        lemma_split_single(l[0]);
        assert(l =~= seq![l[0]]);
    } else {
        let rest = l.drop_first();
        assert(plain_segs(rest)) by {
            assert forall|k: int| 0 <= k < rest.len() implies plain_chars(#[trigger] rest[k]) by {
                assert(rest[k] == l[k + 1]);
            }
        }
        lemma_join_facts(rest);
        lemma_split_single(l[0]);
        lemma_split_concat(l[0], join_segs(rest));
        assert(seq![l[0]] + rest =~= l);
        let j = join_segs(l);
        assert(j == l[0] + seq!['/'] + join_segs(rest));
        assert forall|i: int| 0 <= i < j.len() implies #[trigger] j[i] != '\\' by {
            if i < l[0].len() {
                assert(j[i] == l[0][i]);
            } else if i > l[0].len() {
                assert(j[i] == join_segs(rest)[i - l[0].len() - 1]);
            }
        }
        if dot_slash_led(j) {
            if l[0].len() == 0 {
                assert(j[0] == '/');
            } else if l[0].len() >= 2 {
                assert(j[1] == l[0][1]);
            } else {
                assert(j[0] == l[0][0]);
                assert(l[0] =~= seq!['.']);
            }
        }
    }
}

/// The run over segments from the start accepts exactly the segment lists
/// of normal-form paths.
proof fn lemma_lead_run_start(l: Seq<Seq<char>>)
    ensures
        lead_accepts(lead_run(0, l)) == (l.len() >= 1 && !(l.len() >= 2 && l[0] == seq!['.'])),
{
    if l.len() >= 1 {
        let r = l.drop_first();
        assert(lead_run(0, l) == lead_run(lead_step(0, l[0]), r));
        lemma_lead_run_two(r);
        lemma_lead_run_three(r);
        if l[0] == seq!['.'] && r.len() >= 1 {
            assert(lead_run(1, r) == lead_run(3, r.drop_first()));
            lemma_lead_run_three(r.drop_first());
        }
    }
}

proof fn lemma_lead_run_two(l: Seq<Seq<char>>)
    ensures
        lead_run(2, l) == 2,
    decreases l.len(),
{
    if l.len() > 0 {
        lemma_lead_run_two(l.drop_first());
    }
}

// ---------------------------------------------------------------------------
// Satisfying a pattern
// ---------------------------------------------------------------------------

/// A text that pattern `p` matches from `x`: each `?` as `a`, each `*` as
/// nothing.
pub open spec fn sample_text(p: Seq<char>, x: int) -> Seq<char>
    decreases p.len() - x,
{
    if x < 0 || x >= p.len() {
        Seq::empty()
    } else if p[x] == '*' {
        sample_text(p, x + 1)
    } else {
        seq![if p[x] == '?' { 'a' } else { p[x] }] + sample_text(p, x + 1)
    }
}

proof fn lemma_sample_text(p: Seq<char>, x: int)
    requires
        0 <= x <= p.len(),
        plain_chars(p),
    ensures
        plain_chars(sample_text(p, x)),
        segment_match(p, sample_text(p, x), x, 0),
    decreases p.len() - x,
{
    if x < p.len() {
        lemma_sample_text(p, x + 1);
        let r = sample_text(p, x + 1);
        if p[x] == '*' {
            lemma_star_step(p, r, x, 0);
        } else {
            let c = if p[x] == '?' { 'a' } else { p[x] };
            let w = seq![c] + r;
            lemma_segment_shift(p, r, c, x + 1, 0);
            assert(w[0] == c);
            assert forall|i: int| 0 <= i < w.len() implies w[i] != '/' && #[trigger] w[i] != '\\' by {
                if i > 0 {
                    assert(w[i] == r[i - 1]);
                }
            }
        }
    }
}

/// Some plain segments match the pattern segments from `i`.
proof fn lemma_parts_sample(pat: Seq<Seq<char>>, i: int) -> (l: Seq<Seq<char>>)
    requires
        0 <= i <= pat.len(),
        plain_segs(pat),
    ensures
        plain_segs(l),
        parts_match(pat, l, i, 0),
    decreases pat.len() - i,
{
    if i == pat.len() {
        Seq::empty()
    } else {
        let rest = lemma_parts_sample(pat, i + 1);
        if is_globstar(pat, i) {
            lemma_globstar_step(pat, rest, i, 0);
            rest
        } else {
            assert(plain_chars(pat[i]));
            lemma_sample_text(pat[i], 0);
            let w = sample_text(pat[i], 0);
            let l = seq![w] + rest;
            lemma_parts_shift(pat, rest, w, i + 1, 0);
            assert(l[0] == w);
            assert forall|k: int| 0 <= k < l.len() implies plain_chars(#[trigger] l[k]) by {
                if k > 0 {
                    assert(l[k] == rest[k - 1]);
                }
            }
            l
        }
    }
}

/// Matching after a run of leading segments is matching that many
/// positions on.
proof fn lemma_parts_shift_many(pat: Seq<Seq<char>>, pre: Seq<Seq<char>>, tgt: Seq<Seq<char>>, pi: int, ti: int)
    requires
        0 <= pi,
        0 <= ti,
    ensures
        parts_match(pat, pre + tgt, pi, ti + pre.len()) == parts_match(pat, tgt, pi, ti),
    decreases pre.len(),
{
    if pre.len() > 0 {
        let r = pre.drop_first();
        lemma_parts_shift_many(pat, r, tgt, pi, ti);
        lemma_parts_shift(pat, r + tgt, pre[0], pi, ti + r.len());
        assert(seq![pre[0]] + (r + tgt) =~= pre + tgt);
    } else {
        assert(pre + tgt =~= tgt);
    }
}

// ---------------------------------------------------------------------------
// A pattern against everything under a directory
// ---------------------------------------------------------------------------

/// Whether pattern segments `pb_s` from `i` match some path that starts
/// with the segments `fa` from `k` (and goes on with any segments).
pub open spec fn dir_meet(pb_s: Seq<Seq<char>>, fa: Seq<Seq<char>>, i: int, k: int) -> bool
    decreases (pb_s.len() - i) + (fa.len() - k),
{
    if !(0 <= i <= pb_s.len() && 0 <= k <= fa.len()) {
        false
    } else if k == fa.len() {
        true
    } else if i == pb_s.len() {
        false
    } else if is_globstar(pb_s, i) {
        dir_meet(pb_s, fa, i + 1, k) || dir_meet(pb_s, fa, i, k + 1)
    } else {
        segment_match(pb_s[i], fa[k], 0, 0) && dir_meet(pb_s, fa, i + 1, k + 1)
    }
}

proof fn lemma_dir_meet_sound(pb_s: Seq<Seq<char>>, fa: Seq<Seq<char>>, i: int, k: int) -> (l: Seq<Seq<char>>)
    requires
        dir_meet(pb_s, fa, i, k),
        plain_segs(pb_s),
    ensures
        plain_segs(l),
        parts_match(pb_s, fa + l, i, k),
    decreases (pb_s.len() - i) + (fa.len() - k),
{
    if k == fa.len() {
        let l = lemma_parts_sample(pb_s, i);
        lemma_parts_shift_many(pb_s, fa, l, i, 0);
        l
    } else if is_globstar(pb_s, i) {
        let l = if dir_meet(pb_s, fa, i + 1, k) {
            lemma_dir_meet_sound(pb_s, fa, i + 1, k)
        } else {
            lemma_dir_meet_sound(pb_s, fa, i, k + 1)
        };
        lemma_globstar_step(pb_s, fa + l, i, k);
        l
    } else {
        let l = lemma_dir_meet_sound(pb_s, fa, i + 1, k + 1);
        assert((fa + l)[k] == fa[k]);
        l
    }
}

proof fn lemma_dir_meet_complete(pb_s: Seq<Seq<char>>, fa: Seq<Seq<char>>, l: Seq<Seq<char>>, i: int, k: int)
    requires
        0 <= i <= pb_s.len(),
        0 <= k <= fa.len(),
        parts_match(pb_s, fa + l, i, k),
    ensures
        dir_meet(pb_s, fa, i, k),
    decreases (pb_s.len() - i) + (fa.len() + l.len() - k),
{
    if k < fa.len() && i < pb_s.len() {
        assert((fa + l)[k] == fa[k]);
        if is_globstar(pb_s, i) {
            lemma_globstar_step(pb_s, fa + l, i, k);
            if parts_match(pb_s, fa + l, i + 1, k) {
                lemma_dir_meet_complete(pb_s, fa, l, i + 1, k);
            } else {
                lemma_dir_meet_complete(pb_s, fa, l, i, k + 1);
            }
        } else {
            lemma_dir_meet_complete(pb_s, fa, l, i + 1, k + 1);
        }
    }
}

// ---------------------------------------------------------------------------
// Two whole patterns
// ---------------------------------------------------------------------------

/// The directory a pattern ending in `/` stands for.
pub open spec fn dir_root(p: Seq<char>) -> Option<Seq<char>> {
    if p.len() > 0 && p.last() == '/' {
        Some(p.drop_last())
    } else {
        None
    }
}

/// Whether directories `qa` and `qb` have a path in common: one is the
/// other or lies below it.
pub open spec fn dirs_meet(qa: Seq<char>, qb: Seq<char>) -> bool {
    qa == qb || qa.push('/').is_prefix_of(qb) || qb.push('/').is_prefix_of(qa)
}

/// Whether a normal form matches every path.
pub open spec fn universal(p: Seq<char>) -> bool {
    p == seq!['*', '*'] || p == seq!['.']
}

/// Whether normal forms `a` and `b` match a common path: one matches all,
/// one matches the other, their directories meet, one's directory meets
/// the other's segments, or their segments meet.
pub open spec fn patterns_meet(a: Seq<char>, b: Seq<char>) -> bool {
    ||| universal(a)
    ||| universal(b)
    ||| glob_matches(b, a)
    ||| glob_matches(a, b)
    ||| (dir_root(a) is Some && dir_root(b) is Some && dirs_meet(dir_root(a).unwrap(), dir_root(b).unwrap()))
    ||| (dir_root(a) is Some && dir_meet(split_slash(b), split_slash(dir_root(a).unwrap()), 0, 0))
    ||| (dir_root(b) is Some && dir_meet(split_slash(a), split_slash(dir_root(b).unwrap()), 0, 0))
    ||| parts_meet(split_slash(a), split_slash(b), 0, 0, 0)
}

/// Whether pattern `p` covers `t` as a directory and everything below it.
pub open spec fn dir_covers(p: Seq<char>, t: Seq<char>) -> bool {
    p.len() > 0 && p.last() == '/' && (t == p.drop_last() || p.drop_last().push('/').is_prefix_of(t))
}

/// What a normal form matching a normal-form path comes down to.
proof fn lemma_match_cases(p: Seq<char>, n: Seq<char>)
    requires
        in_normal_form(p),
        in_normal_form(n),
        glob_matches(p, n),
    ensures
        p == n || universal(p) || dir_covers(p, n) || parts_match(split_slash(p), split_slash(n), 0, 0),
{
    lemma_normal_form(p);
    lemma_normal_form(n);
    if p == seq!['*'] && !n.contains('/') && p != n {
        assert forall|i: int| 0 <= i < n.len() implies #[trigger] n[i] != '/' by {
            if n[i] == '/' {
                assert(n.contains(n[i]));
            }
        }
        lemma_split_single(n);
        assert forall|i: int| 0 <= i < p.len() implies #[trigger] p[i] != '/' by {}
        lemma_split_single(p);
        lemma_star_matches_all(n, 0);
        let ps = split_slash(p);
        let ns = split_slash(n);
        assert(ps[0] == seq!['*']);
        assert(ps[0] != seq!['*', '*']);
        assert(parts_match(ps, ns, 1, 1));
    }
}

/// A normal-form path that a normal form matches is matched by whatever
/// has that normal form.
proof fn lemma_match_normal(x: Seq<char>, t: Seq<char>)
    requires
        in_normal_form(t),
    ensures
        glob_matches(x, t) == glob_matches(normalized(x), t),
{
    lemma_normal_form(t);
    lemma_normalize_idempotent(x);
}

proof fn lemma_dir_root_normal(a: Seq<char>)
    requires
        in_normal_form(a),
        dir_root(a) is Some,
    ensures
        in_normal_form(dir_root(a).unwrap()),
        dir_root(a).unwrap() != seq!['.'],
        dir_root(a).unwrap().push('/') == a,
{
    let q = a.drop_last();
    assert(q.push('/') =~= a);
    assert forall|i: int| 0 <= i < q.len() implies #[trigger] q[i] != '\\' by {
        assert(q[i] == a[i]);
    }
    if q.len() >= 2 {
        assert(q[0] == a[0] && q[1] == a[1]);
    }
    if q == seq!['.'] {
        assert(a[0] == '.' && a[1] == '/');
    }
}

/// Directories meet when some path is covered by both.
proof fn lemma_dirs_meet(qa: Seq<char>, qb: Seq<char>, n: Seq<char>)
    requires
        n == qa || qa.push('/').is_prefix_of(n),
        n == qb || qb.push('/').is_prefix_of(n),
    ensures
        dirs_meet(qa, qb),
{
    let ea = qa.push('/');
    let eb = qb.push('/');
    if n != qa && n != qb {
        if qa.len() == qb.len() {
            assert forall|i: int| 0 <= i < qa.len() implies qa[i] == qb[i] by {
                assert(ea[i] == n[i] && eb[i] == n[i]);
            }
            assert(qa =~= qb);
        } else if qa.len() < qb.len() {
            assert forall|i: int| 0 <= i < ea.len() implies ea[i] == qb.subrange(0, ea.len() as int)[i] by {
                assert(ea[i] == n[i] && eb[i] == n[i]);
            }
            assert(ea =~= qb.subrange(0, ea.len() as int));
        } else {
            assert forall|i: int| 0 <= i < eb.len() implies eb[i] == qa.subrange(0, eb.len() as int)[i] by {
                assert(ea[i] == n[i] && eb[i] == n[i]);
            }
            assert(eb =~= qa.subrange(0, eb.len() as int));
        }
    } else if n == qa && n != qb {
        assert(eb.is_prefix_of(qa));
    } else if n == qb && n != qa {
        assert(ea.is_prefix_of(qb));
    }
}

/// A pattern whose directory meets the other's segments, and a path that
/// both match.
proof fn lemma_dir_witness(a: Seq<char>, b: Seq<char>) -> (t: Seq<char>)
    requires
        in_normal_form(a),
        in_normal_form(b),
        dir_root(a) is Some,
        dir_meet(split_slash(b), split_slash(dir_root(a).unwrap()), 0, 0),
    ensures
        in_normal_form(t),
        glob_matches(a, t),
        glob_matches(b, t),
{
    let qa = dir_root(a).unwrap();
    lemma_dir_root_normal(a);
    lemma_split_facts(b);
    let fa = split_slash(qa);
    let l = lemma_dir_meet_sound(split_slash(b), fa, 0, 0);
    lemma_normal_form(a);
    lemma_normal_form(b);
    if l.len() == 0 {
        assert(fa + l =~= fa);
        lemma_normal_form(qa);
        qa
    } else {
        lemma_join_facts(l);
        let j = join_segs(l);
        let t = qa + seq!['/'] + j;
        lemma_split_concat(qa, j);
        assert forall|i: int| 0 <= i < t.len() implies #[trigger] t[i] != '\\' by {
            if i < qa.len() {
                assert(t[i] == qa[i]);
            } else if i > qa.len() {
                assert(t[i] == j[i - qa.len() - 1]);
            }
        }
        if qa.len() >= 2 {
            assert(t[0] == qa[0] && t[1] == qa[1]);
        } else if qa.len() == 1 {
            assert(t[0] == qa[0] && t[1] == '/');
            if qa[0] == '.' {
                assert(qa =~= seq!['.']);
            }
        } else {
            assert(t[0] == '/');
        }
        assert(qa.push('/') =~= t.subrange(0, qa.len() as int + 1));
        lemma_normal_form(t);
        t
    }
}

/// Patterns that meet match a common path.
pub proof fn lemma_patterns_meet_sound(x: Seq<char>, y: Seq<char>)
    requires
        patterns_meet(normalized(x), normalized(y)),
    ensures
        exists|t: Seq<char>| glob_matches(x, t) && glob_matches(y, t),
{
    let a = normalized(x);
    let b = normalized(y);
    lemma_normal_form(x);
    lemma_normal_form(y);
    lemma_normalize_idempotent(x);
    lemma_normalize_idempotent(y);
    let t = if universal(a) || glob_matches(a, b) {
        b
    } else if universal(b) || glob_matches(b, a) {
        a
    } else if dir_root(a) is Some && dir_root(b) is Some && dirs_meet(dir_root(a).unwrap(), dir_root(b).unwrap()) {
        let qa = dir_root(a).unwrap();
        let qb = dir_root(b).unwrap();
        lemma_dir_root_normal(a);
        lemma_dir_root_normal(b);
        if qa.push('/').is_prefix_of(qb) {
            qb
        } else {
            qa
        }
    } else if dir_root(a) is Some && dir_meet(split_slash(b), split_slash(dir_root(a).unwrap()), 0, 0) {
        lemma_dir_witness(a, b)
    } else if dir_root(b) is Some && dir_meet(split_slash(a), split_slash(dir_root(b).unwrap()), 0, 0) {
        lemma_dir_witness(b, a)
    } else {
        lemma_split_facts(a);
        lemma_split_facts(b);
        let l = lemma_parts_meet_sound(split_slash(a), split_slash(b), 0, 0, 0);
        lemma_lead_run_start(l);
        lemma_join_facts(l);
        join_segs(l)
    };
    lemma_normal_form(t);
    lemma_match_normal(x, t);
    lemma_match_normal(y, t);
    assert(glob_matches(x, t) && glob_matches(y, t));
}

/// Patterns that match a common path meet.
pub proof fn lemma_patterns_meet_complete(x: Seq<char>, y: Seq<char>, t: Seq<char>)
    requires
        glob_matches(x, t),
        glob_matches(y, t),
    ensures
        patterns_meet(normalized(x), normalized(y)),
{
    let a = normalized(x);
    let b = normalized(y);
    let n = normalized(t);
    lemma_normal_form(x);
    lemma_normal_form(y);
    lemma_normal_form(t);
    lemma_normalize_idempotent(x);
    lemma_normalize_idempotent(y);
    lemma_normalize_idempotent(t);
    lemma_match_normal(x, n);
    lemma_match_normal(y, n);
    assert(glob_matches(a, n) && glob_matches(b, n));
    lemma_match_cases(a, n);
    lemma_match_cases(b, n);
    if a == n || b == n || universal(a) || universal(b) {
    } else {
        lemma_split_facts(a);
        lemma_split_facts(b);
        lemma_split_facts(n);
        if dir_covers(a, n) && dir_covers(b, n) {
            lemma_dirs_meet(a.drop_last(), b.drop_last(), n);
        } else if dir_covers(a, n) {
            lemma_dir_cover_meet(a, b, n);
        } else if dir_covers(b, n) {
            lemma_dir_cover_meet(b, a, n);
        } else {
            lemma_lead_run_start(split_slash(n));
            assert(split_slash(n).skip(0) =~= split_slash(n));
            lemma_parts_meet_complete(split_slash(a), split_slash(b), split_slash(n), 0, 0, 0, 0);
        }
    }
}

proof fn lemma_dir_cover_meet(a: Seq<char>, b: Seq<char>, n: Seq<char>)
    requires
        dir_covers(a, n),
        parts_match(split_slash(b), split_slash(n), 0, 0),
    ensures
        dir_root(a) is Some && dir_meet(split_slash(b), split_slash(dir_root(a).unwrap()), 0, 0),
{
    let qa = a.drop_last();
    let fa = split_slash(qa);
    lemma_split_nonempty(qa);
    if n == qa {
        assert(fa + Seq::<Seq<char>>::empty() =~= fa);
        lemma_dir_meet_complete(split_slash(b), fa, Seq::empty(), 0, 0);
    } else {
        let r = n.skip(qa.len() as int + 1);
        let e = qa.push('/');
        assert(e.is_prefix_of(n));
        let m = qa + seq!['/'] + r;
        assert(m.len() == n.len());
        assert forall|i: int| 0 <= i < n.len() implies m[i] == n[i] by {
            if i <= qa.len() {
                assert(n.subrange(0, e.len() as int)[i] == n[i]);
                assert(e[i] == m[i]);
            } else {
                assert(m[i] == r[i - qa.len() - 1]);
            }
        }
        assert(m =~= n);
        lemma_split_concat(qa, r);
        lemma_dir_meet_complete(split_slash(b), fa, split_slash(r), 0, 0);
    }
}

/// The exact rule: normal forms meet exactly when the patterns match a
/// common path.
pub proof fn lemma_patterns_meet_exact(x: Seq<char>, y: Seq<char>)
    ensures
        patterns_meet(normalized(x), normalized(y)) == exists|t: Seq<char>| glob_matches(x, t) && glob_matches(y, t),
{
    if patterns_meet(normalized(x), normalized(y)) {
        lemma_patterns_meet_sound(x, y);
    } else if exists|t: Seq<char>| glob_matches(x, t) && glob_matches(y, t) {
        let t = choose|t: Seq<char>| glob_matches(x, t) && glob_matches(y, t);
        lemma_patterns_meet_complete(x, y, t);
    }
}

// ---------------------------------------------------------------------------
// The searches, run
// ---------------------------------------------------------------------------

fn dot_step_of(s: u8, c: char) -> (r: u8)
    requires
        s <= 2,
    ensures
        r == dot_step(s as int, c),
        r <= 2,
{
    if s == 0 {
        if c == '.' {
            1
        } else {
            2
        }
    } else {
        2
    }
}

fn meet_char_of(a: char, b: char) -> (r: char)
    ensures
        r == meet_char(a, b),
{
    if a != '?' {
        a
    } else if b != '?' {
        b
    } else {
        'a'
    }
}

/// The place of search state (`x`, `y`, `s`) in a table of `w` columns
/// and three states.
pub open spec fn slot(x: int, y: int, s: int, w: nat) -> int {
    (x * w + y) * 3 + s
}

proof fn lemma_slot(x: int, y: int, s: int, x2: int, y2: int, s2: int, w: nat, h: nat)
    requires
        0 <= x < h,
        0 <= x2 < h,
        0 <= y < w,
        0 <= y2 < w,
        0 <= s < 3,
        0 <= s2 < 3,
    ensures
        0 <= x * w <= x * w + y < h * w,
        0 <= slot(x, y, s, w) < h * w * 3,
        slot(x, y, s, w) == slot(x2, y2, s2, w) ==> x == x2 && y == y2 && s == s2,
{
    assert(0 <= x * w + y < h * w) by (nonlinear_arith)
        requires
            0 <= x < h,
            0 <= y < w,
    ;
    assert(0 <= x * w) by (nonlinear_arith)
        requires
            0 <= x,
            0 <= y < w,
    ;
    assert(slot(x, y, s, w) < h * w * 3) by (nonlinear_arith)
        requires
            x * w + y < h * w,
            0 <= s < 3,
            slot(x, y, s, w) == (x * w + y) * 3 + s,
    ;
    if slot(x, y, s, w) == slot(x2, y2, s2, w) {
        let k = slot(x, y, s, w);
        vstd::arithmetic::div_mod::lemma_fundamental_div_mod_converse(k, 3, x * w + y, s);
        vstd::arithmetic::div_mod::lemma_fundamental_div_mod_converse(k, 3, x2 * w + y2, s2);
        vstd::arithmetic::div_mod::lemma_fundamental_div_mod_converse(x * w + y, w as int, x, y);
        vstd::arithmetic::div_mod::lemma_fundamental_div_mod_converse(x2 * w + y2, w as int, x2, y2);
    }
}

/// A table of search results within one segment: 0 unknown, 1 no, 2 yes.
pub open spec fn seg_table_ok(t: Seq<u8>, pa: Seq<char>, pb: Seq<char>, d: bool) -> bool {
    &&& t.len() == (pa.len() + 1) * (pb.len() + 1) * 3
    &&& forall|x: int, y: int, s: int|
        0 <= x <= pa.len() && 0 <= y <= pb.len() && 0 <= s <= 2 && #[trigger] t[slot(
            x,
            y,
            s,
            pb.len() + 1,
        )] != 0 ==> (t[slot(x, y, s, pb.len() + 1)] == 2) == seg_meet(pa, pb, x, y, s, d)
}

/// Runs the search within one segment, remembering each answer in `table`.
fn seg_meet_memo(pa: &Vec<char>, pb: &Vec<char>, x: usize, y: usize, s: u8, d: bool, table: &mut Vec<u8>) -> (r: bool)
    requires
        x <= pa.len(),
        y <= pb.len(),
        s <= 2,
        seg_table_ok(old(table)@, pa@, pb@, d),
        old(table)@.len() <= usize::MAX,
    ensures
        r == seg_meet(pa@, pb@, x as int, y as int, s as int, d),
        seg_table_ok(final(table)@, pa@, pb@, d),
        final(table)@.len() == old(table)@.len(),
    decreases (pa.len() - x) + (pb.len() - y), 2 - s,
{
    proof {
        let h = pa@.len() + 1;
        let w = pb@.len() + 1;
        assert(w <= h * w * 3) by (nonlinear_arith)
            requires
                h >= 1,
                w >= 1,
        ;
    }
    let w = pb.len() + 1;
    proof {
        lemma_slot(x as int, y as int, s as int, x as int, y as int, s as int, w as nat, (pa.len() + 1) as nat);
    }
    let k = (x * w + y) * 3 + s as usize;
    if table[k] != 0 {
        return table[k] == 2;
    }
    let r = if x == pa.len() && y == pb.len() {
        d || s != 1
    } else {
        let sa = x < pa.len() && pa[x] == '*';
        let sb = y < pb.len() && pb[y] == '*';
        if sa && seg_meet_memo(pa, pb, x + 1, y, s, d, table) {
            true
        } else if sb && seg_meet_memo(pa, pb, x, y + 1, s, d, table) {
            true
        } else if sa && sb && s != 2 && seg_meet_memo(pa, pb, x, y, 2, d, table) {
            true
        } else if x < pa.len() && !sa && y < pb.len() && !sb && (pa[x] == '?' || pb[y] == '?' || pa[x] == pb[y])
            && seg_meet_memo(pa, pb, x + 1, y + 1, dot_step_of(s, meet_char_of(pa[x], pb[y])), d, table) {
            true
        } else if x < pa.len() && !sa && sb && seg_meet_memo(
            pa,
            pb,
            x + 1,
            y,
            dot_step_of(s, meet_char_of(pa[x], '?')),
            d,
            table,
        ) {
            true
        } else if sa && y < pb.len() && !sb && seg_meet_memo(
            pa,
            pb,
            x,
            y + 1,
            dot_step_of(s, meet_char_of('?', pb[y])),
            d,
            table,
        ) {
            true
        } else {
            false
        }
    };
    let ghost before = table@;
    let v: u8 = if r { 2 } else { 1 };
    table.set(k, v);
    proof {
        let t = table@;
        assert(t == before.update(k as int, v));
        assert(k == slot(x as int, y as int, s as int, (pb@.len() + 1) as nat));
        let pl = pa@.len();
        let ql = pb@.len();
        assert forall|x2: int, y2: int, s2: int|
            0 <= x2 <= pl && 0 <= y2 <= ql && 0 <= s2 <= 2 && #[trigger] t[slot(x2, y2, s2, ql + 1)] != 0 implies (t[slot(
                x2,
                y2,
                s2,
                ql + 1,
            )] == 2) == seg_meet(pa@, pb@, x2, y2, s2, d) by {
            lemma_slot(x as int, y as int, s as int, x2, y2, s2, ql + 1, pl + 1);
            lemma_slot(x2, y2, s2, x as int, y as int, s as int, ql + 1, pl + 1);
            if slot(x2, y2, s2, ql + 1) != k {
                assert(t[slot(x2, y2, s2, ql + 1)] == before[slot(x2, y2, s2, ql + 1)]);
            }
        }
    }
    r
}

/// Runs the search within one segment.
fn seg_meet_run(pa: &Vec<char>, pb: &Vec<char>, x: usize, y: usize, s: u8, d: bool) -> (r: bool)
    requires
        x <= pa.len(),
        y <= pb.len(),
        s <= 2,
    ensures
        r == seg_meet(pa@, pb@, x as int, y as int, s as int, d),
{
    let h = pa.len().checked_add(1);
    let w = pb.len().checked_add(1);
    let size = match (h, w) {
        (Some(h), Some(w)) => match h.checked_mul(w) {
            Some(hw) => hw.checked_mul(3),
            None => None,
        },
        _ => None,
    };
    match size {
        Some(n) => {
            let mut table: Vec<u8> = Vec::new();
            let mut i: usize = 0;
            while i < n
                invariant
                    i <= n,
                    table@.len() == i,
                    forall|j: int| 0 <= j < i ==> table@[j] == 0,
                decreases n - i,
            {
                table.push(0);
                i = i + 1;
            }
            proof {
                assert(n == (pa@.len() + 1) * (pb@.len() + 1) * 3);
                assert forall|x2: int, y2: int, s2: int|
                    0 <= x2 <= pa@.len() && 0 <= y2 <= pb@.len() && 0 <= s2 <= 2 && #[trigger] table@[slot(
                        x2,
                        y2,
                        s2,
                        pb@.len() + 1,
                    )] != 0 implies (table@[slot(x2, y2, s2, pb@.len() + 1)] == 2) == seg_meet(
                    pa@,
                    pb@,
                    x2,
                    y2,
                    s2,
                    d,
                ) by {
                    lemma_slot(x2, y2, s2, x2, y2, s2, pb@.len() + 1, pa@.len() + 1);
                }
            }
            seg_meet_memo(pa, pb, x, y, s, d, &mut table)
        },
        None => seg_meet_plain(pa, pb, x, y, s, d),
    }
}

/// Runs the search within one segment, without a table.
fn seg_meet_plain(pa: &Vec<char>, pb: &Vec<char>, x: usize, y: usize, s: u8, d: bool) -> (r: bool)
    requires
        x <= pa.len(),
        y <= pb.len(),
        s <= 2,
    ensures
        r == seg_meet(pa@, pb@, x as int, y as int, s as int, d),
    decreases (pa.len() - x) + (pb.len() - y), 2 - s,
{
    if x == pa.len() && y == pb.len() {
        return d || s != 1;
    }
    let sa = x < pa.len() && pa[x] == '*';
    let sb = y < pb.len() && pb[y] == '*';
    if sa && seg_meet_plain(pa, pb, x + 1, y, s, d) {
        return true;
    }
    if sb && seg_meet_plain(pa, pb, x, y + 1, s, d) {
        return true;
    }
    if sa && sb && s != 2 && seg_meet_plain(pa, pb, x, y, 2, d) {
        return true;
    }
    if x < pa.len() && !sa && y < pb.len() && !sb && (pa[x] == '?' || pb[y] == '?' || pa[x] == pb[y]) {
        let c = meet_char_of(pa[x], pb[y]);
        if seg_meet_plain(pa, pb, x + 1, y + 1, dot_step_of(s, c), d) {
            return true;
        }
    }
    if x < pa.len() && !sa && sb {
        let c = meet_char_of(pa[x], '?');
        if seg_meet_plain(pa, pb, x + 1, y, dot_step_of(s, c), d) {
            return true;
        }
    }
    if sa && y < pb.len() && !sb {
        let c = meet_char_of('?', pb[y]);
        if seg_meet_plain(pa, pb, x, y + 1, dot_step_of(s, c), d) {
            return true;
        }
    }
    false
}

fn globstar_at(p: &Vec<Vec<char>>, i: usize) -> (r: bool)
    ensures
        r == is_globstar(segs_view(p@), i as int),
{
    proof {
        reveal_strlit("**");
        assert("**"@ =~= seq!['*', '*']);
    }
    i < p.len() && chars_eq_str(&p[i], "**")
}

/// Whether some text both segment patterns match: `.` when `dot` (and
/// only then), any other text otherwise.
fn seg_pair_meets(pa: &Vec<char>, pb: &Vec<char>, f: u8, ni: usize, nj: usize, ps: &Vec<Vec<char>>, qs: &Vec<Vec<char>>) -> (r: bool)
    requires
        f <= 2,
        f != 1,
        ni <= ps.len(),
        nj <= qs.len(),
    ensures
        r == ((seg_meet(pa@, pb@, 0, 0, 0, f == 2) && parts_meet(segs_view(ps@), segs_view(qs@), ni as int, nj as int, 2))
            || (f == 0 && segment_match(pa@, seq!['.'], 0, 0) && segment_match(pb@, seq!['.'], 0, 0)
            && parts_meet(segs_view(ps@), segs_view(qs@), ni as int, nj as int, 1))),
    decreases (ps.len() - ni) + (qs.len() - nj), 3nat,
{
    if seg_meet_run(pa, pb, 0, 0, 0, f == 2) && parts_meet_run(ps, qs, ni, nj, 2) {
        return true;
    }
    if f == 0 {
        let dot = vec!['.'];
        proof {
            assert(dot@ =~= seq!['.']);
        }
        if match_single_pattern(pa, &dot) && match_single_pattern(pb, &dot) {
            return parts_meet_run(ps, qs, ni, nj, 1);
        }
    }
    false
}

/// Runs the search over the segments.
fn parts_meet_run(ps: &Vec<Vec<char>>, qs: &Vec<Vec<char>>, i: usize, j: usize, f: u8) -> (r: bool)
    requires
        i <= ps.len(),
        j <= qs.len(),
        f <= 2,
    ensures
        r == parts_meet(segs_view(ps@), segs_view(qs@), i as int, j as int, f as int),
    decreases (ps.len() - i) + (qs.len() - j), 2 - f, 4nat,
{
    let ghost pv = segs_view(ps@);
    let ghost qv = segs_view(qs@);
    if i == ps.len() && j == qs.len() {
        return f == 1 || f == 2;
    }
    let ga = globstar_at(ps, i);
    let gb = globstar_at(qs, j);
    if ga && parts_meet_run(ps, qs, i + 1, j, f) {
        return true;
    }
    if gb && parts_meet_run(ps, qs, i, j + 1, f) {
        return true;
    }
    if f == 0 && ga && gb && parts_meet_run(ps, qs, i, j, 2) {
        return true;
    }
    if f == 1 {
        return false;
    }
    let star = vec!['*'];
    proof {
        assert(star@ =~= seq!['*']);
    }
    if i < ps.len() && !ga && j < qs.len() && !gb {
        proof {
            assert(pv[i as int] == ps@[i as int]@ && qv[j as int] == qs@[j as int]@);
        }
        if seg_pair_meets(&ps[i], &qs[j], f, i + 1, j + 1, ps, qs) {
            return true;
        }
    }
    if i < ps.len() && !ga && gb {
        proof {
            assert(pv[i as int] == ps@[i as int]@);
        }
        if seg_pair_meets(&ps[i], &star, f, i + 1, j, ps, qs) {
            return true;
        }
    }
    if ga && j < qs.len() && !gb {
        proof {
            assert(qv[j as int] == qs@[j as int]@);
        }
        if seg_pair_meets(&star, &qs[j], f, i, j + 1, ps, qs) {
            return true;
        }
    }
    false
}

/// Runs the search of segment patterns against a directory's segments.
fn dir_meet_run(ps: &Vec<Vec<char>>, fa: &Vec<Vec<char>>, i: usize, k: usize) -> (r: bool)
    requires
        i <= ps.len(),
        k <= fa.len(),
    ensures
        r == dir_meet(segs_view(ps@), segs_view(fa@), i as int, k as int),
    decreases (ps.len() - i) + (fa.len() - k),
{
    if k == fa.len() {
        return true;
    }
    if i == ps.len() {
        return false;
    }
    if globstar_at(ps, i) {
        return dir_meet_run(ps, fa, i + 1, k) || dir_meet_run(ps, fa, i, k + 1);
    }
    proof {
        assert(segs_view(ps@)[i as int] == ps@[i as int]@ && segs_view(fa@)[k as int] == fa@[k as int]@);
    }
    match_single_pattern(&ps[i], &fa[k]) && dir_meet_run(ps, fa, i + 1, k + 1)
}

fn is_universal_chars(p: &Vec<char>) -> (r: bool)
    ensures
        r == universal(p@),
{
    proof {
        reveal_strlit("**");
        reveal_strlit(".");
        assert("**"@ =~= seq!['*', '*']);
        assert("."@ =~= seq!['.']);
    }
    chars_eq_str(p, "**") || chars_eq_str(p, ".")
}

fn dir_root_chars(p: &Vec<char>) -> (r: Option<Vec<char>>)
    ensures
        match r {
            Some(q) => dir_root(p@) == Some(q@),
            None => dir_root(p@) is None,
        },
{
    if p.len() > 0 && p[p.len() - 1] == '/' {
        let q = take_chars(p, p.len() - 1);
        proof {
            assert(q@ =~= p@.drop_last());
        }
        Some(q)
    } else {
        None
    }
}

fn dirs_meet_chars(qa: &Vec<char>, qb: &Vec<char>) -> (r: bool)
    ensures
        r == dirs_meet(qa@, qb@),
{
    let mut ea = qa.clone();
    ea.push('/');
    let mut eb = qb.clone();
    eb.push('/');
    proof {
        assert(ea@ =~= qa@.push('/'));
        assert(eb@ =~= qb@.push('/'));
    }
    chars_eq(qa, qb) || starts_with_chars(qb, &ea) || starts_with_chars(qa, &eb)
}

/// Whether normal forms `a` and `b` match a common path.
pub(crate) fn patterns_meet_run(a: &Vec<char>, b: &Vec<char>) -> (r: bool)
    ensures
        r == patterns_meet(a@, b@),
{
    if is_universal_chars(a) || is_universal_chars(b) {
        return true;
    }
    if glob_match_chars(b, a) || glob_match_chars(a, b) {
        return true;
    }
    let ps = split_segments(a);
    let qs = split_segments(b);
    let ra = dir_root_chars(a);
    let rb = dir_root_chars(b);
    if let (Some(qa), Some(qb)) = (&ra, &rb) {
        if dirs_meet_chars(qa, qb) {
            return true;
        }
    }
    if let Some(qa) = &ra {
        let fa = split_segments(qa);
        if dir_meet_run(&qs, &fa, 0, 0) {
            return true;
        }
    }
    if let Some(qb) = &rb {
        let fb = split_segments(qb);
        if dir_meet_run(&ps, &fb, 0, 0) {
            return true;
        }
    }
    parts_meet_run(&ps, &qs, 0, 0, 0)
}

} // verus!
