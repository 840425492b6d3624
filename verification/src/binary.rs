//! Binary search over the implicitly sorted sequence in which position `i`
//! holds the value `i`.

use vstd::prelude::*;
use vstd::arithmetic::power2::{pow2, lemma2_to64, lemma_pow2_pos, lemma_pow2_unfold};

verus! {

/// Bisects the implicit sorted sequence of length `size` whose cell `i`
/// holds the value `i`, and reports whether `target` occurs in it, together
/// with the number of probes the search made.  The bounds are kept as
/// signed values so that an exhausted range (`hi` one below `lo`) is
/// representable, and the midpoint is computed as `lo + (hi - lo) / 2`,
/// which cannot overflow.  The search succeeds exactly when `target < size`,
/// and the probe count is logarithmic: two to the power of it never exceeds
/// four times `size`.
pub fn bsearch_count(size: usize, target: usize) -> (r: (bool, u64))
    ensures
        r.0 == (target < size),
        r.1 <= size,
        size > 0 ==> pow2(r.1 as nat) <= 4 * size,
{
    if size == 0 {
        return (false, 0);
    }
    let mut lo: i128 = 0;
    let mut hi: i128 = size as i128 - 1;
    let t: i128 = target as i128;
    let mut probes: u64 = 0;
    proof {
        lemma2_to64();
    }
    while lo <= hi
        invariant
            0 <= lo,
            lo <= hi + 1,
            hi < size as i128,
            t == target as i128,
            target < size ==> lo <= t && t <= hi,
            probes + (hi - lo + 1) <= size,
            pow2(probes as nat) * (hi - lo + 1) <= 2 * (size as int),
            pow2(probes as nat) <= 4 * (size as int),
        decreases hi - lo + 1,
    {
        let ghost p0: nat = probes as nat;
        let ghost lo0: int = lo as int;
        let ghost hi0: int = hi as int;
        probes = probes + 1;
        proof {
            lemma_pow2_unfold(probes as nat);
            lemma_pow2_pos(p0);
            // Each probe at most doubles the power while the range is still
            // nonempty, so the power stays within four times the size.
            assert(pow2(p0) <= 2 * (size as int)) by (nonlinear_arith)
                requires
                    pow2(p0) * (hi0 - lo0 + 1) <= 2 * (size as int),
                    hi0 - lo0 + 1 >= 1,
                    pow2(p0) > 0,
            ;
            assert(pow2(probes as nat) <= 4 * (size as int));
        }
        let mid: i128 = lo + (hi - lo) / 2;
        if mid == t {
            return (true, probes);
        }
        if mid < t {
            lo = mid + 1;
        } else {
            hi = mid - 1;
        }
        proof {
            // The remaining range is at most half of what it was, so its
            // length balances the doubled power.
            assert(2 * (hi - lo + 1) <= hi0 - lo0 + 1);
            assert(pow2(probes as nat) * (hi - lo + 1) <= 2 * (size as int))
                by (nonlinear_arith)
                requires
                    pow2(probes as nat) == 2 * pow2(p0),
                    2 * (hi - lo + 1) <= hi0 - lo0 + 1,
                    pow2(p0) * (hi0 - lo0 + 1) <= 2 * (size as int),
                    pow2(p0) > 0,
                    hi - lo + 1 >= 0,
            ;
        }
    }
    (false, probes)
}

/// Reports whether `target` occurs in the implicit sorted sequence of
/// length `size`, by comparison-driven bisection: true exactly when
/// `target < size`.
pub fn bsearch(size: usize, target: usize) -> (found: bool)
    ensures
        found == (target < size),
{
    let r: (bool, u64) = bsearch_count(size, target);
    r.0
}

} // verus!
