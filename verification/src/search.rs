//! The first position at which something holds.

#[allow(unused_imports)]
use vstd::prelude::*;

verus! {

/// The least `k` with `i <= k < n` at which `p` holds.
pub open spec fn least_from(p: spec_fn(int) -> bool, i: int, n: int) -> Option<int>
    decreases n - i,
{
    if i >= n {
        None
    } else if p(i) {
        Some(i)
    } else {
        least_from(p, i + 1, n)
    }
}

/// The least position below `n` at which `p` holds.
pub open spec fn least(p: spec_fn(int) -> bool, n: int) -> Option<int> {
    least_from(p, 0, n)
}

/// What [`least_from`] finds: a position at which `p` holds and before which it does not, or
/// none where it holds nowhere.
pub proof fn lemma_least_from(p: spec_fn(int) -> bool, i: int, n: int)
    ensures
        match least_from(p, i, n) {
            Some(k) => i <= k < n && p(k) && forall|j: int| i <= j < k ==> !#[trigger] p(j),
            None => forall|j: int| i <= j < n ==> !#[trigger] p(j),
        },
    decreases n - i,
{
    if i < n && !p(i) {
        lemma_least_from(p, i + 1, n);
    }
}

} // verus!
