//! Bit-level helpers for the event register: counting set bits and the
//! monotonicity facts the wait-list proofs rest on.

use vstd::prelude::*;

verus! {

/// `sub` holds a subset of the bits of `sup`.
pub open spec fn bit_subset(sub: u32, sup: u32) -> bool {
    sub & sup == sub
}

/// Number of set bits among the low `k` bit positions of `b`.
pub open spec fn count_ones_below(b: u32, k: nat) -> nat
    decreases k,
{
    if k == 0 {
        0
    } else {
        count_ones_below(b, (k - 1) as nat) + if (b >> ((k - 1) as u32)) & 1 == 1 {
            1nat
        } else {
            0nat
        }
    }
}

/// Number of set bits of `b`: the pending-condition count of a register.
pub open spec fn count_ones(b: u32) -> nat {
    count_ones_below(b, 32)
}

/// Count the set bits of `b`.
pub fn popcount(b: u32) -> (n: usize)
    ensures
        n == count_ones(b),
{
    let mut n: usize = 0;
    let mut k: u32 = 0;
    while k < 32
        invariant
            k <= 32,
            n == count_ones_below(b, k as nat),
            n <= k,
        decreases 32 - k,
    {
        if (b >> k) & 1 == 1 {
            n = n + 1;
        }
        k = k + 1;
    }
    n
}

proof fn lemma_count_below_clear(k: nat)
    requires
        k <= 32,
    ensures
        count_ones_below(0, k) == 0,
    decreases k,
{
    if k != 0 {
        lemma_count_below_clear((k - 1) as nat);
        let j = (k - 1) as u32;
        assert((0u32 >> j) & 1 == 0) by (bit_vector);
    }
}

/// A clear register has nothing to count.
pub proof fn lemma_count_ones_clear()
    ensures
        count_ones(0) == 0,
{
    lemma_count_below_clear(32);
}

proof fn lemma_no_ones_low_zero(b: u32, k: nat)
    requires
        k <= 31,
        count_ones_below(b, k) == 0,
    ensures
        (b >> (k as u32)) << (k as u32) == b,
    decreases k,
{
    if k == 0 {
        assert((b >> 0u32) << 0u32 == b) by (bit_vector);
    } else {
        lemma_no_ones_low_zero(b, (k - 1) as nat);
        let j = (k - 1) as u32;
        let j1 = k as u32;
        assert(j1 == j + 1 && j1 <= 31 && (b >> j) << j == b && (b >> j) & 1 != 1 ==> (b >> j1)
            << j1 == b) by (bit_vector);
    }
}

/// A register with any bit set counts at least one.
pub proof fn lemma_count_ones_pos(b: u32)
    requires
        b != 0,
    ensures
        count_ones(b) > 0,
{
    if count_ones(b) == 0 {
        lemma_no_ones_low_zero(b, 31);
        assert((b >> 31u32) << 31u32 == b && (b >> 31u32) & 1 != 1 ==> b == 0) by (bit_vector);
        assert(false);
    }
}

/// Clearing bits can only shrink the register: `b & !m` is a subset of `b`.
pub proof fn lemma_clear_subset(b: u32, m: u32)
    ensures
        bit_subset(b & !m, b),
{
    assert((b & !m) & b == (b & !m)) by (bit_vector);
}

/// Bit subset is transitive.
pub proof fn lemma_subset_trans(a: u32, b: u32, c: u32)
    requires
        bit_subset(a, b),
        bit_subset(b, c),
    ensures
        bit_subset(a, c),
{
    assert(a & b == a && b & c == b ==> a & c == a) by (bit_vector);
}

/// Every register is a subset of itself.
pub proof fn lemma_subset_refl(b: u32)
    ensures
        bit_subset(b, b),
{
    assert(b & b == b) by (bit_vector);
}

} // verus!
