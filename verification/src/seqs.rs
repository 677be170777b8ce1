//! Searching a sequence for the first element with a property.

use vstd::prelude::*;

verus! {

/// The index of the first element of `s` that satisfies `p`, or the length of
/// `s` where none does.
pub open spec fn first_where<T>(s: Seq<T>, p: spec_fn(T) -> bool) -> int
    decreases s.len(),
{
    if s.len() == 0 || p(s[0]) {
        0
    } else {
        1 + first_where(s.drop_first(), p)
    }
}

/// An index is the first with the property when nothing before it has it and
/// it has it itself, or is the end.
pub proof fn lemma_first_where_at<T>(s: Seq<T>, p: spec_fn(T) -> bool, k: int)
    requires
        0 <= k <= s.len(),
        forall|j: int| 0 <= j < k ==> !p(#[trigger] s[j]),
        k < s.len() ==> p(s[k]),
    ensures
        first_where(s, p) == k,
    decreases k,
{
    if k > 0 {
        let rest = s.drop_first();
        assert forall|j: int| 0 <= j < k - 1 implies !p(#[trigger] rest[j]) by {
            assert(rest[j] == s[j + 1]);
        }
        lemma_first_where_at(rest, p, k - 1);
    }
}

/// What `first_where` finds: an index within bounds has the property, and
/// nothing before it does.
pub proof fn lemma_first_where<T>(s: Seq<T>, p: spec_fn(T) -> bool)
    ensures
        0 <= first_where(s, p) <= s.len(),
        first_where(s, p) < s.len() ==> p(s[first_where(s, p)]),
        forall|j: int| 0 <= j < first_where(s, p) ==> !p(#[trigger] s[j]),
    decreases s.len(),
{
    if s.len() == 0 || p(s[0]) {
    } else {
        let rest = s.drop_first();
        lemma_first_where(rest, p);
        assert forall|j: int| 0 <= j < first_where(s, p) implies !p(#[trigger] s[j]) by {
            if j > 0 {
                assert(rest[j - 1] == s[j]);
            }
        }
    }
}

} // verus!
