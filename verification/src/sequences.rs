//! Facts about sequences that the rest of the library leans on: where the
//! first element with some property stands, and what a filter leaves when
//! every element, or none, passes it.

use vstd::prelude::*;

verus! {

/// The position of the first element of `s` that meets `pred`, or the length of
/// `s` if none does.
pub open spec fn first_match<A>(s: Seq<A>, pred: spec_fn(A) -> bool) -> int
    decreases s.len(),
{
    if s.len() == 0 {
        0
    } else if pred(s[0]) {
        0
    } else {
        1 + first_match(s.drop_first(), pred)
    }
}

/// [`first_match`] is the one position before which nothing meets `pred` and at
/// which, unless it is the end, `pred` is met.
pub proof fn lemma_first_match<A>(s: Seq<A>, pred: spec_fn(A) -> bool, at: int)
    requires
        0 <= at <= s.len(),
        forall|j: int| 0 <= j < at ==> !pred(#[trigger] s[j]),
        at < s.len() ==> pred(s[at]),
    ensures
        first_match(s, pred) == at,
    decreases s.len(),
{
    if s.len() > 0 && at > 0 {
        assert(!pred(s[0]));
        let rest = s.drop_first();
        assert forall|j: int| 0 <= j < at - 1 implies !pred(#[trigger] rest[j]) by {
            assert(rest[j] == s[j + 1]);
        }
        lemma_first_match(rest, pred, at - 1);
    }
}

/// What [`first_match`] returns lies within `s` or at its end, meets `pred`
/// unless it is the end, and follows only elements that do not meet it.
pub proof fn lemma_first_match_is_first<A>(s: Seq<A>, pred: spec_fn(A) -> bool)
    ensures
        0 <= first_match(s, pred) <= s.len(),
        first_match(s, pred) < s.len() ==> pred(s[first_match(s, pred)]),
        forall|j: int| 0 <= j < first_match(s, pred) ==> !pred(#[trigger] s[j]),
    decreases s.len(),
{
    if s.len() > 0 && !pred(s[0]) {
        let rest = s.drop_first();
        lemma_first_match_is_first(rest, pred);
        assert forall|j: int| 0 <= j < first_match(s, pred) implies !pred(#[trigger] s[j]) by {
            if j > 0 {
                assert(s[j] == rest[j - 1]);
            }
        }
    }
}

/// A filter that every element passes changes nothing.
pub proof fn lemma_all_kept<A>(s: Seq<A>, pred: spec_fn(A) -> bool)
    requires
        forall|i: int| 0 <= i < s.len() ==> pred(#[trigger] s[i]),
    ensures
        s.filter(pred) == s,
    decreases s.len(),
{
    reveal(Seq::filter);
    if s.len() > 0 {
        lemma_all_kept(s.drop_last(), pred);
        assert(s.drop_last().push(s.last()) =~= s);
    }
    assert(s.filter(pred) =~= s);
}

/// A filter that no element passes leaves nothing.
pub proof fn lemma_none_kept<A>(s: Seq<A>, pred: spec_fn(A) -> bool)
    requires
        forall|i: int| 0 <= i < s.len() ==> !pred(#[trigger] s[i]),
    ensures
        s.filter(pred).len() == 0,
    decreases s.len(),
{
    reveal(Seq::filter);
    if s.len() > 0 {
        lemma_none_kept(s.drop_last(), pred);
    }
}

} // verus!
