//! The first element of a sequence that has some property.

use vstd::prelude::*;

verus! {

/// Index of the first element at or after `from` for which `wanted` holds.
pub open spec fn first_from<T>(s: Seq<T>, wanted: spec_fn(T) -> bool, from: int) -> Option<int>
    decreases s.len() - from,
{
    if from >= s.len() {
        None
    } else if wanted(s[from]) {
        Some(from)
    } else {
        first_from(s, wanted, from + 1)
    }
}

/// Index of the first element for which `wanted` holds.
pub open spec fn first_where<T>(s: Seq<T>, wanted: spec_fn(T) -> bool) -> Option<int> {
    first_from(s, wanted, 0)
}

/// `first_from`, said without recursion.
pub proof fn lemma_first_from<T>(s: Seq<T>, wanted: spec_fn(T) -> bool, from: int)
    requires
        0 <= from,
    ensures
        match first_from(s, wanted, from) {
            Some(k) => {
                &&& from <= k < s.len()
                &&& wanted(s[k])
                &&& forall|j: int| from <= j < k ==> !#[trigger] wanted(s[j])
            },
            None => forall|j: int| from <= j < s.len() ==> !#[trigger] wanted(s[j]),
        },
    decreases s.len() - from,
{
    if from < s.len() && !wanted(s[from]) {
        lemma_first_from(s, wanted, from + 1);
    }
}

/// Whatever is wanted, comes with nothing wanted before it, is the first.
pub proof fn lemma_is_first<T>(s: Seq<T>, wanted: spec_fn(T) -> bool, k: int)
    requires
        0 <= k < s.len(),
        wanted(s[k]),
        forall|j: int| 0 <= j < k ==> !#[trigger] wanted(s[j]),
    ensures
        first_where(s, wanted) == Some(k),
{
    lemma_first_from(s, wanted, 0);
}

} // verus!
