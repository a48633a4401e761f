//! The first position, among the first `len`, at which a predicate holds.
use vstd::prelude::*;

verus! {

/// The least `i < len` with `pred(i)`, if there is one.
pub open spec fn first_index(len: nat, pred: spec_fn(int) -> bool) -> Option<int>
    decreases len,
{
    if len == 0 {
        None
    } else {
        match first_index((len - 1) as nat, pred) {
            Some(i) => Some(i),
            None => if pred(len - 1) {
                Some(len - 1)
            } else {
                None
            },
        }
    }
}

/// `first_index` is the least position at which the predicate holds.
pub proof fn lemma_first_index(len: nat, pred: spec_fn(int) -> bool)
    ensures
        first_index(len, pred) matches Some(i) ==> {
            &&& 0 <= i < len
            &&& pred(i)
            &&& forall|j: int| 0 <= j < i ==> !#[trigger] pred(j)
        },
        first_index(len, pred) is None ==> forall|j: int| 0 <= j < len ==> !#[trigger] pred(j),
    decreases len,
{
    if len > 0 {
        lemma_first_index((len - 1) as nat, pred);
    }
}

/// A position at which the predicate holds, and before which it holds nowhere,
/// is `first_index`.
pub proof fn lemma_first_index_is(len: nat, pred: spec_fn(int) -> bool, i: int)
    requires
        0 <= i < len,
        pred(i),
        forall|j: int| 0 <= j < i ==> !#[trigger] pred(j),
    ensures
        first_index(len, pred) == Some(i),
    decreases len,
{
    lemma_first_index(len, pred);
    if i < len - 1 {
        lemma_first_index_is((len - 1) as nat, pred, i);
    }
}

/// If the predicate holds nowhere below `len`, there is no `first_index`.
pub proof fn lemma_first_index_none(len: nat, pred: spec_fn(int) -> bool)
    requires
        forall|j: int| 0 <= j < len ==> !#[trigger] pred(j),
    ensures
        first_index(len, pred) is None,
    decreases len,
{
    if len > 0 {
        lemma_first_index_none((len - 1) as nat, pred);
    }
}

} // verus!
