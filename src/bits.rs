//! Bit counting and GF(2) vector-matrix products.
use vstd::prelude::*;

verus! {

/// Bit `i` of `x`, as 0 or 1.
pub open spec fn bit(x: u32, i: u32) -> u32 {
    (x >> i) & 1
}

/// Number of set bits of `x`.
pub open spec fn ones(x: u32) -> u32 {
    (bit(x, 0) + bit(x, 1) + bit(x, 2) + bit(x, 3) + bit(x, 4) + bit(x, 5) + bit(x, 6) + bit(x, 7)
        + bit(x, 8) + bit(x, 9) + bit(x, 10) + bit(x, 11) + bit(x, 12) + bit(x, 13) + bit(x, 14)
        + bit(x, 15) + bit(x, 16) + bit(x, 17) + bit(x, 18) + bit(x, 19) + bit(x, 20) + bit(x, 21)
        + bit(x, 22) + bit(x, 23) + bit(x, 24) + bit(x, 25) + bit(x, 26) + bit(x, 27) + bit(x, 28)
        + bit(x, 29) + bit(x, 30) + bit(x, 31)) as u32
}

/// Parity of `x`: the exclusive or of all its bits.
pub open spec fn parity(x: u32) -> u32 {
    bit(x, 0) ^ bit(x, 1) ^ bit(x, 2) ^ bit(x, 3) ^ bit(x, 4) ^ bit(x, 5) ^ bit(x, 6) ^ bit(x, 7)
        ^ bit(x, 8) ^ bit(x, 9) ^ bit(x, 10) ^ bit(x, 11) ^ bit(x, 12) ^ bit(x, 13) ^ bit(x, 14)
        ^ bit(x, 15) ^ bit(x, 16) ^ bit(x, 17) ^ bit(x, 18) ^ bit(x, 19) ^ bit(x, 20) ^ bit(x, 21)
        ^ bit(x, 22) ^ bit(x, 23) ^ bit(x, 24) ^ bit(x, 25) ^ bit(x, 26) ^ bit(x, 27) ^ bit(x, 28)
        ^ bit(x, 29) ^ bit(x, 30) ^ bit(x, 31)
}

/// GF(2) dot product of two bit vectors: the parity of the bits they share.
pub open spec fn dot(a: u32, b: u32) -> u32 {
    parity(a & b)
}


proof fn lemma_bit_xor_le(a: u32, b: u32, i: u32)
    by (bit_vector)
    ensures
        bit(a ^ b, i) <= bit(a, i) + bit(b, i),
        bit(a, i) <= 1,
        bit(b, i) <= 1,
        bit(a ^ b, i) <= 1,
{
}

/// The weight of a sum is at most the sum of the weights (the triangle inequality of the
/// Hamming distance).
pub proof fn lemma_ones_xor_le(a: u32, b: u32)
    ensures
        ones(a ^ b) <= ones(a) + ones(b),
{
    assert forall|i: u32| i < 32 implies bit(a ^ b, i) <= bit(a, i) + bit(b, i) && bit(a, i) <= 1
        && bit(b, i) <= 1 && #[trigger] bit(a ^ b, i) <= 1 by {
        lemma_bit_xor_le(a, b, i);
    }
}

/// Relies on `u32::count_ones`: the number of set bits.
#[verifier::external_body]
pub(crate) fn count_ones(x: u32) -> (r: u32)
    ensures
        r == ones(x),
{
    x.count_ones()
}

/// Relies on `binfield_matrix::matrix_mul`, taken at `u32` words and a `u16` result: row
/// `k` of `mat` gives bit `mat.len() - 1 - k` of the result, the GF(2) dot product of
/// `word` with that row; the bits above those are zero.
#[verifier::external_body]
pub(crate) fn matrix_mul(word: u32, mat: &[u32]) -> (r: u16)
    requires
        mat@.len() <= 16,
    ensures
        forall|k: int|
            0 <= k < mat@.len() ==> bit(r as u32, (mat@.len() - 1 - k) as u32) == dot(
                word,
                #[trigger] mat@[k],
            ),
        (r as u32) >> (mat@.len() as u32) == 0,
{
    binfield_matrix::matrix_mul(word, mat)
}

/// Relies on `binfield_matrix::matrix_mul_systematic`, taken at `u16` words and a `u32`
/// result: `word` stands unchanged above the low `mat.len()` bits, and row `k` of `mat`
/// gives bit `mat.len() - 1 - k`, the GF(2) dot product of `word` with that row.
#[verifier::external_body]
pub(crate) fn matrix_mul_systematic(word: u16, mat: &[u16]) -> (r: u32)
    requires
        mat@.len() <= 16,
    ensures
        forall|k: int|
            0 <= k < mat@.len() ==> bit(r, (mat@.len() - 1 - k) as u32) == dot(
                word as u32,
                (#[trigger] mat@[k]) as u32,
            ),
        r >> (mat@.len() as u32) == word as u32,
{
    binfield_matrix::matrix_mul_systematic(word, mat)
}

} // verus!
