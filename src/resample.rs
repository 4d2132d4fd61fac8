//! Systematic resampling of a particle population.
//!
//! The cumulative weights and the stratified points enter as order keys:
//! unsigned integers that compare as the quantities they stand for do. For
//! non-negative IEEE-754 single-precision numbers the bit patterns are such
//! keys, so the walk below picks exactly the particles that a walk over the
//! numbers themselves would pick.
use vstd::prelude::*;

use crate::error::ConfigurationError;

verus! {

/// Where a scan of `cum` for point `p` stops when it starts at `start`: the
/// first position from `start` on whose key reaches `p`, or the last
/// position when none does.
pub open spec fn advance(p: u32, cum: Seq<u32>, start: int) -> int
    decreases cum.len() - start,
{
    if start < cum.len() - 1 && p > cum[start] {
        advance(p, cum, start + 1)
    } else {
        start
    }
}

/// The position picked for the `k`-th point by a single scan that serves
/// the points in order and never moves back.
pub open spec fn walk(points: Seq<u32>, cum: Seq<u32>, k: int) -> int
    decreases k,
{
    if k <= 0 {
        advance(points[0], cum, 0)
    } else {
        advance(points[k], cum, walk(points, cum, k - 1))
    }
}

/// The first position whose cumulative key reaches `p`, or the last position
/// when none does.
pub open spec fn first_reaching(p: u32, cum: Seq<u32>) -> int {
    advance(p, cum, 0)
}

/// `s` never decreases.
pub open spec fn nondecreasing(s: Seq<u32>) -> bool {
    forall|i: int, j: int| 0 <= i <= j < s.len() ==> s[i] <= s[j]
}

/// A scan that starts within `cum` stops within it, no earlier than it
/// started, after passing only keys below `p`; it stops at a key that
/// reaches `p` unless it stops at the last position.
pub proof fn lemma_advance(p: u32, cum: Seq<u32>, start: int)
    requires
        0 <= start < cum.len(),
    ensures
        start <= advance(p, cum, start) < cum.len(),
        forall|j: int| start <= j < advance(p, cum, start) ==> p > #[trigger] cum[j],
        advance(p, cum, start) == cum.len() - 1 || p <= cum[advance(p, cum, start)],
    decreases cum.len() - start,
{
    if start < cum.len() - 1 && p > cum[start] {
        lemma_advance(p, cum, start + 1);
    }
}

/// A scan may skip positions whose keys are all below `p` without changing
/// where it stops.
pub proof fn lemma_advance_skip(p: u32, cum: Seq<u32>, start: int, mid: int)
    requires
        0 <= start <= mid < cum.len(),
        forall|j: int| start <= j < mid ==> p > #[trigger] cum[j],
    ensures
        advance(p, cum, start) == advance(p, cum, mid),
    decreases mid - start,
{
    if start < mid {
        lemma_advance_skip(p, cum, start + 1, mid);
    }
}

/// Every point's scan stops within `cum`.
pub proof fn lemma_walk_bounds(points: Seq<u32>, cum: Seq<u32>, k: int)
    requires
        0 <= k < points.len(),
        cum.len() > 0,
    ensures
        0 <= walk(points, cum, k) < cum.len(),
    decreases k,
{
    if k <= 0 {
        lemma_advance(points[0], cum, 0);
    } else {
        lemma_walk_bounds(points, cum, k - 1);
        lemma_advance(points[k], cum, walk(points, cum, k - 1));
    }
}

/// Serving points in order with one scan that never moves back picks, for
/// each point, the same position as a fresh scan from the start.
pub proof fn lemma_walk_is_first_reaching(points: Seq<u32>, cum: Seq<u32>, k: int)
    requires
        0 <= k < points.len(),
        cum.len() > 0,
        nondecreasing(points),
    ensures
        walk(points, cum, k) == first_reaching(points[k], cum),
    decreases k,
{
    if k > 0 {
        lemma_walk_is_first_reaching(points, cum, k - 1);
        let prev = walk(points, cum, k - 1);
        lemma_advance(points[k - 1], cum, 0);
        assert forall|j: int| 0 <= j < prev implies points[k] > #[trigger] cum[j] by {
            assert(points[k - 1] <= points[k]);
        }
        lemma_advance_skip(points[k], cum, 0, prev);
    }
}

/// For each point, the position in `cum` that systematic resampling draws:
/// one scan serves the points in order and never moves back, and it stops at
/// the last position when a point lies beyond every key.
pub fn systematic_indices(points: &Vec<u32>, cum: &Vec<u32>) -> (r: Vec<usize>)
    requires
        cum@.len() > 0,
    ensures
        r@.len() == points@.len(),
        forall|k: int| 0 <= k < r@.len() ==> #[trigger] r@[k] == walk(points@, cum@, k),
        forall|k: int| 0 <= k < r@.len() ==> #[trigger] r@[k] < cum@.len(),
        nondecreasing(points@) ==> forall|k: int|
            0 <= k < r@.len() ==> #[trigger] r@[k] == first_reaching(points@[k], cum@),
{
    let n = cum.len();
    let mut r: Vec<usize> = Vec::new();
    let mut ind: usize = 0;
    let mut ip: usize = 0;
    while ip < points.len()
        invariant
            n == cum@.len(),
            n > 0,
            ip <= points@.len(),
            r@.len() == ip,
            ind < n,
            ip > 0 ==> ind == walk(points@, cum@, ip - 1),
            ip == 0 ==> ind == 0,
            forall|k: int| 0 <= k < ip ==> #[trigger] r@[k] == walk(points@, cum@, k),
        decreases points@.len() - ip,
    {
        let ghost start = ind as int;
        while points[ip] > cum[ind] && ind < n - 1
            invariant
                n == cum@.len(),
                n > 0,
                ip < points@.len(),
                start <= ind < n,
                advance(points@[ip as int], cum@, start) == advance(points@[ip as int], cum@, ind as int),
            decreases n - ind,
        {
            ind += 1;
        }
        proof {
            if ip == 0 {
                assert(walk(points@, cum@, 0) == advance(points@[0], cum@, 0));
            }
            assert(walk(points@, cum@, ip as int) == advance(points@[ip as int], cum@, start));
        }
        r.push(ind);
        ip += 1;
    }
    proof {
        assert forall|k: int| 0 <= k < r@.len() implies #[trigger] r@[k] < cum@.len() by {
            lemma_walk_bounds(points@, cum@, k);
        }
        if nondecreasing(points@) {
            assert forall|k: int| 0 <= k < r@.len() implies #[trigger] r@[k] == first_reaching(
                points@[k],
                cum@,
            ) by {
                lemma_walk_is_first_reaching(points@, cum@, k);
            }
        }
    }
    r
}

/// The particles at the given positions, in the order of the positions.
pub fn select_particles<T: Copy>(particles: &Vec<T>, indices: &Vec<usize>) -> (r: Vec<T>)
    requires
        forall|k: int| 0 <= k < indices@.len() ==> #[trigger] indices@[k] < particles@.len(),
    ensures
        r@.len() == indices@.len(),
        forall|k: int| 0 <= k < r@.len() ==> #[trigger] r@[k] == particles@[indices@[k] as int],
{
    let mut r: Vec<T> = Vec::new();
    let mut k: usize = 0;
    while k < indices.len()
        invariant
            k <= indices@.len(),
            r@.len() == k,
            forall|i: int| 0 <= i < indices@.len() ==> #[trigger] indices@[i] < particles@.len(),
            forall|i: int| 0 <= i < k ==> #[trigger] r@[i] == particles@[indices@[i] as int],
        decreases indices@.len() - k,
    {
        r.push(particles[indices[k]]);
        k += 1;
    }
    r
}

/// Systematic resampling: the new population holds, for each point, the
/// particle that the scan of the cumulative weights picks for it. With one
/// point per particle the population keeps its size. An empty population is
/// refused.
pub fn resample<T: Copy>(particles: &Vec<T>, cum: &Vec<u32>, points: &Vec<u32>) -> (r: Result<
    Vec<T>,
    ConfigurationError,
>)
    requires
        cum@.len() == particles@.len(),
    ensures
        particles@.len() == 0 <==> r == Err::<Vec<T>, ConfigurationError>(ConfigurationError::NoParticles),
        particles@.len() > 0 <==> r is Ok,
        r is Ok ==> r->Ok_0@.len() == points@.len(),
        r is Ok ==> forall|k: int|
            0 <= k < r->Ok_0@.len() ==> #[trigger] r->Ok_0@[k] == particles@[walk(points@, cum@, k)],
        r is Ok && nondecreasing(points@) ==> forall|k: int|
            0 <= k < r->Ok_0@.len() ==> #[trigger] r->Ok_0@[k] == particles@[first_reaching(
                points@[k],
                cum@,
            )],
{
    if particles.len() == 0 {
        return Err(ConfigurationError::NoParticles);
    }
    let indices = systematic_indices(points, cum);
    Ok(select_particles(particles, &indices))
}

} // verus!
