//! Reasoning about 64-bit cell masks.
//!
//! A mask assigns one bit to each of the 64 board cells: bit `i` stands for
//! the cell with linear index `i` (row-major, bit 0 is the top-left cell).

use vstd::prelude::*;

verus! {

/// Bit `i` of `b` is set. Only indices below 64 count as bits of the mask.
pub open spec fn has_bit(b: u64, i: u64) -> bool {
    i < 64 && (b >> i) & 1u64 == 1u64
}

/// The empty mask has no bit set.
pub proof fn lemma_empty_mask()
    by (bit_vector)
    ensures
        forall|i: u64| !#[trigger] has_bit(0u64, i),
{
}

/// Setting bit `i` sets exactly that bit and keeps every other bit.
pub proof fn lemma_set_bit(b: u64, i: u64)
    by (bit_vector)
    requires
        i < 64,
    ensures
        forall|j: u64| j < 64 ==> #[trigger] has_bit(b | (1u64 << i), j) == (j == i || has_bit(b, j)),
{
}

/// Testing a bit by masking agrees with testing it by shifting.
pub proof fn lemma_bit_test(b: u64, i: u64)
    by (bit_vector)
    requires
        i < 64,
    ensures
        (b & (1u64 << i) != 0) == has_bit(b, i),
{
}

/// The union of two masks has the bits of both and no others.
pub proof fn lemma_or_masks(a: u64, b: u64)
    by (bit_vector)
    ensures
        forall|j: u64| #[trigger] has_bit(a | b, j) == (has_bit(a, j) || has_bit(b, j)),
{
}

/// If the `n` lowest bits of `b` are all clear, then shifting the rest out
/// leaves nothing: `b << (64 - n) == 0`.
proof fn lemma_clear_low_bits(b: u64, n: u64)
    requires
        n <= 64,
        forall|j: u64| j < n ==> !#[trigger] has_bit(b, j),
    ensures
        b << ((64 - n) as u64) == 0,
    decreases n,
{
    if n == 0 {
        assert(b << 64u64 == 0) by (bit_vector);
    } else {
        lemma_clear_low_bits(b, (n - 1) as u64);
        let m: u64 = (n - 1) as u64;
        assert(!has_bit(b, m));
        assert(b << ((64 - n) as u64) == 0) by (bit_vector)
            requires
                1 <= n <= 64,
                m == (n - 1) as u64,
                b << ((64 - m) as u64) == 0,
                !((b >> m) & 1u64 == 1u64),
        ;
    }
}

/// A mask is zero exactly when it has no bit set.
pub proof fn lemma_zero_mask_iff(b: u64)
    ensures
        (b == 0) <==> (forall|j: u64| j < 64 ==> !#[trigger] has_bit(b, j)),
{
    if b == 0 {
        lemma_empty_mask();
    }
    if forall|j: u64| j < 64 ==> !has_bit(b, j) {
        lemma_clear_low_bits(b, 64);
        assert(b << 0u64 == b) by (bit_vector);
    }
}

} // verus!
