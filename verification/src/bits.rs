use vstd::prelude::*;

verus! {

// Facts about single bits in a 128-bit bitmap. The register only ever
// shifts by an index between 0 and 127, so every lemma carries that bound.

/// OR with zero changes nothing.
pub proof fn lemma_or_zero(x: u128)
    by (bit_vector)
    ensures
        x | 0u128 == x,
        0u128 | x == x,
{
}

/// OR is associative.
pub proof fn lemma_or_assoc(a: u128, b: u128, c: u128)
    by (bit_vector)
    ensures
        a | (b | c) == (a | b) | c,
{
}

/// An OR is nonzero as soon as one side is.
pub proof fn lemma_or_nonzero(a: u128, b: u128)
    by (bit_vector)
    ensures
        a != 0 ==> (a | b) != 0,
        b != 0 ==> (a | b) != 0,
{
}

/// A single bit inside the bitmap is never the zero mask.
pub proof fn lemma_shl_nonzero(k: u128)
    by (bit_vector)
    requires
        k <= 127,
    ensures
        (1u128 << k) != 0,
{
}

/// Distinct indices inside the bitmap give distinct bits.
pub proof fn lemma_shl_injective(j: u128, k: u128)
    by (bit_vector)
    requires
        j <= 127,
        k <= 127,
        j != k,
    ensures
        (1u128 << j) != (1u128 << k),
{
}

/// A bit with index at least one does not touch bit zero.
pub proof fn lemma_shl_skips_bit_zero(k: u128)
    by (bit_vector)
    requires
        1 <= k <= 127,
    ensures
        (1u128 << k) & 1u128 == 0,
{
}

/// Masks that avoid bit zero still avoid it after an OR.
pub proof fn lemma_or_keeps_bit_zero_clear(a: u128, b: u128)
    by (bit_vector)
    requires
        a & 1u128 == 0,
        b & 1u128 == 0,
    ensures
        (a | b) & 1u128 == 0,
{
}

} // verus!
