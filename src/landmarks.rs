//! Which landmarks a range sensor sees.
//!
//! Distances enter as order keys, as in resampling: unsigned integers that
//! compare as the distances do (for non-negative IEEE-754 single-precision
//! numbers, their bit patterns).
use vstd::prelude::*;

verus! {

/// `s` is strictly increasing.
pub open spec fn increasing(s: Seq<usize>) -> bool {
    forall|i: int, j: int| 0 <= i < j < s.len() ==> s[i] < s[j]
}

/// The positions of the landmarks whose distance is at most the sensing
/// range, in order: a landmark exactly at the range is seen.
pub fn landmarks_in_range(distances: &Vec<u32>, max_range: u32) -> (r: Vec<usize>)
    ensures
        increasing(r@),
        forall|k: int| 0 <= k < r@.len() ==> #[trigger] r@[k] < distances@.len(),
        forall|k: int| 0 <= k < r@.len() ==> distances@[#[trigger] r@[k] as int] <= max_range,
        forall|i: int|
            0 <= i < distances@.len() && #[trigger] distances@[i] <= max_range ==> r@.contains(
                i as usize,
            ),
{
    let mut r: Vec<usize> = Vec::new();
    let mut i: usize = 0;
    while i < distances.len()
        invariant
            i <= distances@.len(),
            increasing(r@),
            forall|k: int| 0 <= k < r@.len() ==> #[trigger] r@[k] < i,
            forall|k: int| 0 <= k < r@.len() ==> distances@[#[trigger] r@[k] as int] <= max_range,
            forall|j: int|
                0 <= j < i && #[trigger] distances@[j] <= max_range ==> r@.contains(j as usize),
        decreases distances@.len() - i,
    {
        if distances[i] <= max_range {
            let ghost before = r@;
            r.push(i);
            proof {
                assert forall|j: int|
                    0 <= j < i + 1 && #[trigger] distances@[j] <= max_range implies r@.contains(
                    j as usize,
                ) by {
                    if j < i {
                        let k = choose|k: int| 0 <= k < before.len() && before[k] == j as usize;
                        assert(r@[k] == j as usize);
                    } else {
                        assert(r@[r@.len() - 1] == j as usize);
                    }
                }
            }
        }
        i += 1;
    }
    r
}

} // verus!
