//! Searching in sequences.

use vstd::prelude::*;

verus! {

/// The index of the first element at or after `from` that satisfies `p`.
pub open spec fn first_from<T>(s: Seq<T>, p: spec_fn(T) -> bool, from: int) -> Option<int>
    decreases s.len() - from,
{
    if from >= s.len() {
        None
    } else if p(s[from]) {
        Some(from)
    } else {
        first_from(s, p, from + 1)
    }
}

/// The index of the first element that satisfies `p`.
pub open spec fn first_index<T>(s: Seq<T>, p: spec_fn(T) -> bool) -> Option<int> {
    first_from(s, p, 0)
}

/// What `first_from` finds satisfies `p`, and nothing before it does.
pub proof fn lemma_first_from<T>(s: Seq<T>, p: spec_fn(T) -> bool, from: int)
    requires
        0 <= from,
    ensures
        first_from(s, p, from) matches Some(i) ==> from <= i < s.len() && p(s[i]),
        first_from(s, p, from) matches Some(i) ==> forall|k: int|
            from <= k < i ==> !p(#[trigger] s[k]),
        first_from(s, p, from) is None ==> forall|k: int|
            from <= k < s.len() ==> !p(#[trigger] s[k]),
    decreases s.len() - from,
{
    if from < s.len() && !p(s[from]) {
        lemma_first_from(s, p, from + 1);
    }
}

/// The first element that satisfies `p` is the one that `first_from` finds.
pub proof fn lemma_first_from_is<T>(s: Seq<T>, p: spec_fn(T) -> bool, from: int, i: int)
    requires
        0 <= from <= i < s.len(),
        p(s[i]),
        forall|k: int| from <= k < i ==> !p(#[trigger] s[k]),
    ensures
        first_from(s, p, from) == Some(i),
{
    lemma_first_from(s, p, from);
    match first_from(s, p, from) {
        Some(j) => {
            if j < i {
                assert(!p(s[j]));
            }
            if i < j {
                assert(!p(s[i]));
            }
        },
        None => {
            assert(!p(s[i]));
        },
    }
}

} // verus!
