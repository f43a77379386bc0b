//! General lemmas about `Seq::filter`, used to relate the point removals
//! performed by a matching pass to a single filtering of the pre-pass side.

use vstd::prelude::*;

verus! {

/// Filtering keeps a sequence unchanged when every element satisfies the
/// predicate.
pub proof fn lemma_filter_all_true<A>(s: Seq<A>, pred: spec_fn(A) -> bool)
    requires
        forall|i: int| 0 <= i < s.len() ==> pred(#[trigger] s[i]),
    ensures
        s.filter(pred) == s,
    decreases s.len(),
{
    reveal(Seq::filter);
    if s.len() > 0 {
        lemma_filter_all_true(s.drop_last(), pred);
        assert(pred(s.last()));
        assert(s.drop_last().push(s.last()) =~= s);
    }
}

/// Two predicates that agree on every element of a sequence filter it to
/// the same result.
pub proof fn lemma_filter_congruent<A>(s: Seq<A>, p1: spec_fn(A) -> bool, p2: spec_fn(A) -> bool)
    requires
        forall|i: int| 0 <= i < s.len() ==> (p1(#[trigger] s[i]) <==> p2(s[i])),
    ensures
        s.filter(p1) == s.filter(p2),
    decreases s.len(),
{
    reveal(Seq::filter);
    if s.len() > 0 {
        lemma_filter_congruent(s.drop_last(), p1, p2);
        assert(p1(s.last()) <==> p2(s.last()));
    }
}

/// Filtering twice is filtering once by the conjunction.
pub proof fn lemma_filter_filter<A>(
    s: Seq<A>,
    p1: spec_fn(A) -> bool,
    p2: spec_fn(A) -> bool,
    p12: spec_fn(A) -> bool,
)
    requires
        forall|x: A| #[trigger] p12(x) <==> (p1(x) && p2(x)),
    ensures
        s.filter(p1).filter(p2) == s.filter(p12),
    decreases s.len(),
{
    reveal(Seq::filter);
    if s.len() == 0 {
    } else {
        let dl = s.drop_last();
        lemma_filter_filter(dl, p1, p2, p12);
        if p1(s.last()) {
            let u = dl.filter(p1);
            assert(u.push(s.last()).drop_last() =~= u);
            assert(u.push(s.last()).last() == s.last());
            assert(s.filter(p1) == u.push(s.last()));
        }
    }
}

} // verus!
