//! Powers of two: the leaf counts over which a balanced tree can be built.

use vstd::arithmetic::power2::is_pow2;
use vstd::prelude::*;

verus! {

/// Whether `n` is a power of two. Zero is none.
pub fn pow2(n: usize) -> (r: bool)
    ensures
        r == is_pow2(n as int),
{
    proof {
        reveal(is_pow2);
    }
    if n == 0 {
        return false;
    }
    let mut m: usize = n;
    while m % 2 == 0
        invariant
            m > 0,
            is_pow2(m as int) == is_pow2(n as int),
        decreases m,
    {
        proof {
            reveal(is_pow2);
        }
        m = m / 2;
    }
    m == 1
}

/// A power of two is at least 1; one above 1 is even, and its half is a
/// power of two again.
pub proof fn lemma_pow2_half(n: int)
    requires
        is_pow2(n),
    ensures
        n >= 1,
        n > 1 ==> n % 2 == 0 && is_pow2(n / 2),
{
    reveal(is_pow2);
}

} // verus!
