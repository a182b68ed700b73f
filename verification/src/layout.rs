//! The request type of the adapter: a size together with a power-of-two
//! alignment, plus the alignment arithmetic the adapter's proofs rest on.

use vstd::prelude::*;

verus! {

use vstd::arithmetic::div_mod::lemma_mod_division_less_than_divisor;
use vstd::arithmetic::div_mod::lemma_mod_mod;
use vstd::arithmetic::power::lemma_pow_adds;
use vstd::arithmetic::power::lemma_pow_positive;
use vstd::arithmetic::power::lemma_pow_strictly_increases;
use vstd::arithmetic::power::pow;
use vstd::arithmetic::power2::is_pow2;
use vstd::arithmetic::power2::is_pow2_equiv;

/// A request for a block of memory: `size` bytes at an address that is a
/// multiple of `align`.
///
/// The interface's invariant is that `align` is a power of two; the adapter
/// is permitted to assume it and never re-validates it.
#[derive(Clone, Copy)]
pub struct Layout {
    pub size: usize,
    pub align: usize,
}

impl Layout {
    /// The caller-side invariant: the alignment is a power of two
    /// (and therefore nonzero).
    pub open spec fn wf(self) -> bool {
        is_pow2(self.align as int)
    }

    /// Builds a layout, establishing the power-of-two invariant at run time.
    pub fn new(size: usize, align: usize) -> (r: Option<Layout>)
        ensures
            r is Some <==> is_pow2(align as int),
            (match r {
                Some(l) => l.size == size && l.align == align && l.wf(),
                None => !is_pow2(align as int),
            }),
    {
        if is_power_of_two(align) {
            Some(Layout { size, align })
        } else {
            None
        }
    }
}

/// Run-time check that `x` is a power of two, by repeated halving.
pub fn is_power_of_two(x: usize) -> (b: bool)
    ensures
        b == is_pow2(x as int),
{
    if x == 0 {
        proof {
            reveal(is_pow2);
        }
        return false;
    }
    let mut m: usize = x;
    while m > 1
        invariant
            m >= 1,
            is_pow2(x as int) == is_pow2(m as int),
        decreases m,
    {
        proof {
            reveal(is_pow2);
        }
        if m % 2 != 0 {
            return false;
        }
        m = m / 2;
    }
    proof {
        reveal(is_pow2);
    }
    true
}

/// An address that is a multiple of a larger power of two is also a multiple
/// of any smaller power of two. This is what makes widening a requested
/// alignment legal: satisfying the backend's stronger alignment floor can
/// never violate the caller's weaker request.
pub proof fn lemma_aligned_to_smaller_pow2(addr: int, small: int, big: int)
    requires
        is_pow2(small),
        is_pow2(big),
        small <= big,
        addr % big == 0,
    ensures
        addr % small == 0,
{
    is_pow2_equiv(small);
    is_pow2_equiv(big);
    let i = choose|i: nat| pow(2, i) == small;
    let j = choose|j: nat| pow(2, j) == big;
    lemma_pow_positive(2, i);
    lemma_pow_positive(2, j);
    if j < i {
        lemma_pow_strictly_increases(2, j, i);
        assert(false);
    }
    let k = pow(2, (j - i) as nat);
    lemma_pow_positive(2, (j - i) as nat);
    lemma_pow_adds(2, i, (j - i) as nat);
    assert(big == small * k);
    lemma_mod_mod(addr, small, k as int);
    assert((addr % big) % small == addr % small);
    lemma_mod_division_less_than_divisor(0int, small);
    assert(0int % small == 0);
}

} // verus!
