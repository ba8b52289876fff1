//! The pre-flight dependency check.
//!
//! Before anything external is touched, every required executable is
//! looked for, and a missing-dependency failure names all of them at
//! once rather than stopping at the first.

use vstd::prelude::*;

verus! {

/// Given which required dependencies are present, returns the indices
/// of every missing one, in order - empty exactly when all are present.
pub fn missing_dependencies(present: &Vec<bool>) -> (r: Vec<usize>)
    ensures
        forall|k: int|
            0 <= k < r@.len() ==> #[trigger] r@[k] < present@.len() && !present@[r@[k] as int],
        forall|k1: int, k2: int| 0 <= k1 < k2 < r@.len() ==> r@[k1] < r@[k2],
        forall|i: int|
            0 <= i < present@.len() && !present@[i] ==> exists|k: int|
                0 <= k < r@.len() && #[trigger] r@[k] == i,
{
    let n = present.len();
    let mut out: Vec<usize> = Vec::new();
    let mut i: usize = 0;
    while i < n
        invariant
            i <= n == present@.len(),
            forall|k: int|
                0 <= k < out@.len() ==> #[trigger] out@[k] < i && !present@[out@[k] as int],
            forall|k1: int, k2: int| 0 <= k1 < k2 < out@.len() ==> out@[k1] < out@[k2],
            forall|j: int|
                0 <= j < i && !present@[j] ==> exists|k: int|
                    0 <= k < out@.len() && #[trigger] out@[k] == j,
        decreases n - i,
    {
        let ghost out0 = out@;
        if !present[i] {
            out.push(i);
        }
        proof {
            assert forall|j: int| 0 <= j < i + 1 && !present@[j] implies exists|k: int|
                0 <= k < out@.len() && #[trigger] out@[k] == j by {
                if j < i && !present@[j] {
                    let k = choose|k: int| 0 <= k < out0.len() && #[trigger] out0[k] == j;
                    assert(out@[k] == j);
                } else if j == i && !present@[j] {
                    assert(out@[out0.len() as int] == i);
                }
            }
        }
        i += 1;
    }
    out
}

} // verus!
