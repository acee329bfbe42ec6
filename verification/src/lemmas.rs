//! Small general facts about sequence filtering that the repository proofs
//! lean on.

use vstd::prelude::*;

verus! {

/// Filtering a sequence extended by one element keeps the filtered prefix
/// and appends the element exactly when it answers the predicate.
pub proof fn lemma_filter_push<A>(s: Seq<A>, pred: spec_fn(A) -> bool, x: A)
    ensures
        (s.push(x)).filter(pred) == if pred(x) {
            s.filter(pred).push(x)
        } else {
            s.filter(pred)
        },
{
    reveal(Seq::filter);
    assert(s.push(x).drop_last() =~= s);
    assert(s.push(x).last() == x);
}

/// Every element of a filtered sequence answers the predicate and occurs in
/// the original sequence.
pub proof fn lemma_filter_elements<A>(s: Seq<A>, pred: spec_fn(A) -> bool)
    ensures
        forall|i: int|
            0 <= i < s.filter(pred).len() ==> pred(#[trigger] s.filter(pred)[i]) && s.contains(
                s.filter(pred)[i],
            ),
    decreases s.len(),
{
    reveal(Seq::filter);
    if s.len() > 0 {
        let prefix = s.drop_last();
        lemma_filter_elements(prefix, pred);
        assert forall|i: int| 0 <= i < s.filter(pred).len() implies pred(
            #[trigger] s.filter(pred)[i],
        ) && s.contains(s.filter(pred)[i]) by {
            if i < prefix.filter(pred).len() {
                assert(s.filter(pred)[i] == prefix.filter(pred)[i]);
                let j = choose|j: int| 0 <= j < prefix.len() && prefix[j] == prefix.filter(pred)[i];
                assert(s[j] == s.filter(pred)[i]);
            } else {
                assert(s.filter(pred)[i] == s.last());
                assert(s[s.len() - 1] == s.last());
            }
        }
    }
}

/// Filtering keeps a projection injective: where no two elements of the
/// source agree on `f`, no two elements of the filtered sequence do.
pub proof fn lemma_filter_distinct_by<A, B>(s: Seq<A>, pred: spec_fn(A) -> bool, f: spec_fn(A) -> B)
    requires
        forall|i: int, j: int| 0 <= i < j < s.len() ==> f(#[trigger] s[i]) != f(#[trigger] s[j]),
    ensures
        forall|i: int, j: int|
            0 <= i < j < s.filter(pred).len() ==> f(#[trigger] s.filter(pred)[i]) != f(
                #[trigger] s.filter(pred)[j],
            ),
    decreases s.len(),
{
    reveal(Seq::filter);
    if s.len() > 0 {
        let prefix = s.drop_last();
        assert forall|i: int, j: int| 0 <= i < j < prefix.len() implies f(#[trigger] prefix[i])
            != f(#[trigger] prefix[j]) by {
            assert(prefix[i] == s[i]);
            assert(prefix[j] == s[j]);
        }
        lemma_filter_distinct_by(prefix, pred, f);
        lemma_filter_elements(prefix, pred);
        let pf = prefix.filter(pred);
        let out = s.filter(pred);
        assert forall|i: int, j: int| 0 <= i < j < out.len() implies f(#[trigger] out[i]) != f(
            #[trigger] out[j],
        ) by {
            if j < pf.len() {
                assert(out[i] == pf[i]);
                assert(out[j] == pf[j]);
            } else {
                assert(pred(s.last()));
                assert(out[j] == s.last());
                assert(out[i] == pf[i]);
                assert(prefix.contains(pf[i]));
                let k = choose|k: int| 0 <= k < prefix.len() && prefix[k] == pf[i];
                assert(prefix[k] == s[k]);
                assert(s.last() == s[s.len() - 1]);
                assert(f(s[k]) != f(s[s.len() - 1]));
            }
        }
    }
}

/// Filtering with a predicate every element answers keeps the sequence as
/// it is.
pub proof fn lemma_filter_all_true<A>(s: Seq<A>, pred: spec_fn(A) -> bool)
    requires
        forall|i: int| 0 <= i < s.len() ==> pred(#[trigger] s[i]),
    ensures
        s.filter(pred) == s,
    decreases s.len(),
{
    reveal(Seq::filter);
    if s.len() > 0 {
        let prefix = s.drop_last();
        assert forall|i: int| 0 <= i < prefix.len() implies pred(#[trigger] prefix[i]) by {
            assert(prefix[i] == s[i]);
        }
        lemma_filter_all_true(prefix, pred);
        assert(s.filter(pred) =~= s);
    }
}

/// Filtering an empty sequence yields an empty sequence.
pub proof fn lemma_filter_empty<A>(s: Seq<A>, pred: spec_fn(A) -> bool)
    requires
        s.len() == 0,
    ensures
        s.filter(pred) == s,
{
    reveal(Seq::filter);
}

} // verus!
