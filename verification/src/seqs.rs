//! Searching sequences.

use vstd::prelude::*;

verus! {

/// The position of the first element of `s` of which `p` holds, or the
/// length of `s` where it holds of none.
pub open spec fn first_where<T>(s: Seq<T>, p: spec_fn(T) -> bool) -> int
    decreases s.len(),
{
    if s.len() == 0 || p(s[0]) {
        0
    } else {
        1 + first_where(s.skip(1), p)
    }
}

/// `first_where` stays within the sequence; `p` holds of the element at it
/// and of none before it.
pub proof fn lemma_first_where<T>(s: Seq<T>, p: spec_fn(T) -> bool)
    ensures
        0 <= first_where(s, p) <= s.len(),
        first_where(s, p) < s.len() ==> p(s[first_where(s, p)]),
        forall|i: int| 0 <= i < first_where(s, p) ==> !p(#[trigger] s[i]),
    decreases s.len(),
{
    if s.len() > 0 && !p(s[0]) {
        lemma_first_where(s.skip(1), p);
        assert forall|i: int| 0 <= i < first_where(s, p) implies !p(#[trigger] s[i]) by {
            if i > 0 {
                assert(s.skip(1)[i - 1] == s[i]);
            }
        }
    }
}

/// Any position that holds the first element of which `p` holds is
/// `first_where`.
pub proof fn lemma_first_where_unique<T>(s: Seq<T>, p: spec_fn(T) -> bool, k: int)
    requires
        0 <= k <= s.len(),
        k < s.len() ==> p(s[k]),
        forall|i: int| 0 <= i < k ==> !p(#[trigger] s[i]),
    ensures
        first_where(s, p) == k,
{
    lemma_first_where(s, p);
    let f = first_where(s, p);
    if f < k {
        assert(!p(s[f]));
    } else if f > k {
        assert(!p(s[k]));
    }
}

} // verus!
