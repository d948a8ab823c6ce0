//! Selecting the elements of a sequence that satisfy a predicate, in order.
use vstd::prelude::*;

verus! {

/// The elements of `s` that satisfy `p`, in their order in `s`.
pub open spec fn select<A>(s: Seq<A>, p: spec_fn(A) -> bool) -> Seq<A>
    decreases s.len(),
{
    if s.len() == 0 {
        Seq::empty()
    } else if p(s.last()) {
        select(s.drop_last(), p).push(s.last())
    } else {
        select(s.drop_last(), p)
    }
}

/// Selecting from a sequence with one more element.
pub proof fn lemma_select_push<A>(s: Seq<A>, x: A, p: spec_fn(A) -> bool)
    ensures
        select(s.push(x), p) == (if p(x) {
            select(s, p).push(x)
        } else {
            select(s, p)
        }),
{
    assert(s.push(x).drop_last() =~= s);
}

/// Selecting from the first `i + 1` elements.
pub proof fn lemma_select_take_step<A>(s: Seq<A>, i: int, p: spec_fn(A) -> bool)
    requires
        0 <= i < s.len(),
    ensures
        select(s.take(i + 1), p) == (if p(s[i]) {
            select(s.take(i), p).push(s[i])
        } else {
            select(s.take(i), p)
        }),
{
    assert(s.take(i + 1) =~= s.take(i).push(s[i]));
    lemma_select_push(s.take(i), s[i], p);
}

/// Every selected element satisfies the predicate and comes from the sequence.
pub proof fn lemma_select_sound<A>(s: Seq<A>, p: spec_fn(A) -> bool)
    ensures
        forall|k: int| 0 <= k < select(s, p).len() ==> #[trigger] p(select(s, p)[k]),
        forall|k: int| 0 <= k < select(s, p).len() ==> s.contains(#[trigger] select(s, p)[k]),
        select(s, p).len() <= s.len(),
    decreases s.len(),
{
    if s.len() > 0 {
        lemma_select_sound(s.drop_last(), p);
        let r = select(s.drop_last(), p);
        assert forall|k: int| 0 <= k < select(s, p).len() implies s.contains(
            #[trigger] select(s, p)[k],
        ) by {
            if k < r.len() {
                let x = r[k];
                assert(s.drop_last().contains(x));
                let w = choose|w: int| 0 <= w < s.drop_last().len() && s.drop_last()[w] == x;
                assert(s[w] == x);
            } else {
                assert(s[s.len() - 1] == s.last());
            }
        }
    }
}

/// Every element of the sequence that satisfies the predicate is selected.
pub proof fn lemma_select_complete<A>(s: Seq<A>, p: spec_fn(A) -> bool, x: A)
    requires
        s.contains(x),
        p(x),
    ensures
        select(s, p).contains(x),
    decreases s.len(),
{
    if s.last() == x {
        assert(select(s, p).last() == x);
        assert(select(s, p)[select(s, p).len() - 1] == x);
    } else {
        let w = choose|w: int| 0 <= w < s.len() && s[w] == x;
        assert(s.drop_last()[w] == x);
        lemma_select_complete(s.drop_last(), p, x);
        let r = select(s.drop_last(), p);
        let v = choose|v: int| 0 <= v < r.len() && r[v] == x;
        if p(s.last()) {
            assert(select(s, p)[v] == x);
        }
    }
}

/// The selected elements and the rejected ones together are as many as the
/// elements of the sequence.
pub proof fn lemma_select_partition<A>(s: Seq<A>, p: spec_fn(A) -> bool)
    ensures
        select(s, p).len() + select(s, |x: A| !p(x)).len() == s.len(),
    decreases s.len(),
{
    if s.len() > 0 {
        lemma_select_partition(s.drop_last(), p);
    }
}

} // verus!
