//! Encoding and decoding of the (24, 12, 8) extended Golay code.
//!
//! A codeword holds its 12 data bits in bits 23..12 and its 12 parity bits in bits 11..0.
use vstd::prelude::*;
use crate::bits::{bit, count_ones, dot, lemma_ones_xor_le, matrix_mul, matrix_mul_systematic, ones};

verus! {

// Rows of the generator parity submatrix **A**.
pub const CORE0: u16 = 0b110001110101;
pub const CORE1: u16 = 0b011000111011;
pub const CORE2: u16 = 0b111101101000;
pub const CORE3: u16 = 0b011110110100;
pub const CORE4: u16 = 0b001111011010;
pub const CORE5: u16 = 0b110110011001;
pub const CORE6: u16 = 0b011011001101;
pub const CORE7: u16 = 0b001101100111;
pub const CORE8: u16 = 0b110111000110;
pub const CORE9: u16 = 0b101010010111;
pub const CORE10: u16 = 0b100100111110;
pub const CORE11: u16 = 0b100011101011;

// Rows of its transpose **A**^T.
pub const XPOSE0: u16 = 0b101001001111;
pub const XPOSE1: u16 = 0b111101101000;
pub const XPOSE2: u16 = 0b011110110100;
pub const XPOSE3: u16 = 0b001111011010;
pub const XPOSE4: u16 = 0b000111101101;
pub const XPOSE5: u16 = 0b101010111001;
pub const XPOSE6: u16 = 0b111100010011;
pub const XPOSE7: u16 = 0b110111000110;
pub const XPOSE8: u16 = 0b011011100011;
pub const XPOSE9: u16 = 0b100100111110;
pub const XPOSE10: u16 = 0b010010011111;
pub const XPOSE11: u16 = 0b110001110101;

// Rows of the parity-check matrix **H** = [ **A**^T | I ].
pub const PAR0: u32 = 0b101001001111100000000000;
pub const PAR1: u32 = 0b111101101000010000000000;
pub const PAR2: u32 = 0b011110110100001000000000;
pub const PAR3: u32 = 0b001111011010000100000000;
pub const PAR4: u32 = 0b000111101101000010000000;
pub const PAR5: u32 = 0b101010111001000001000000;
pub const PAR6: u32 = 0b111100010011000000100000;
pub const PAR7: u32 = 0b110111000110000000010000;
pub const PAR8: u32 = 0b011011100011000000001000;
pub const PAR9: u32 = 0b100100111110000000000100;
pub const PAR10: u32 = 0b010010011111000000000010;
pub const PAR11: u32 = 0b110001110101000000000001;

// Rows of the generator matrix **G** = [ I | **A** ]; the code is self-dual, so this is a
// parity-check matrix too.
pub const PAR_ALT0: u32 = 0b100000000000110001110101;
pub const PAR_ALT1: u32 = 0b010000000000011000111011;
pub const PAR_ALT2: u32 = 0b001000000000111101101000;
pub const PAR_ALT3: u32 = 0b000100000000011110110100;
pub const PAR_ALT4: u32 = 0b000010000000001111011010;
pub const PAR_ALT5: u32 = 0b000001000000110110011001;
pub const PAR_ALT6: u32 = 0b000000100000011011001101;
pub const PAR_ALT7: u32 = 0b000000010000001101100111;
pub const PAR_ALT8: u32 = 0b000000001000110111000110;
pub const PAR_ALT9: u32 = 0b000000000100101010010111;
pub const PAR_ALT10: u32 = 0b000000000010100100111110;
pub const PAR_ALT11: u32 = 0b000000000001100011101011;

/// The 12 parity bits of the data word `d`: the product of `d` with **A**.
pub open spec fn parity_bits(d: u32) -> u32 {
    dot(d, XPOSE0 as u32) << 11
        | dot(d, XPOSE1 as u32) << 10
        | dot(d, XPOSE2 as u32) << 9
        | dot(d, XPOSE3 as u32) << 8
        | dot(d, XPOSE4 as u32) << 7
        | dot(d, XPOSE5 as u32) << 6
        | dot(d, XPOSE6 as u32) << 5
        | dot(d, XPOSE7 as u32) << 4
        | dot(d, XPOSE8 as u32) << 3
        | dot(d, XPOSE9 as u32) << 2
        | dot(d, XPOSE10 as u32) << 1
        | dot(d, XPOSE11 as u32)
}

/// The codeword of the data word `d`: `d` above its parity bits.
pub open spec fn codeword(d: u32) -> u32 {
    d << 12 | parity_bits(d)
}

/// The product of the word `w` with **H**.
pub open spec fn syndrome(w: u32) -> u32 {
    dot(w, PAR0) << 11
        | dot(w, PAR1) << 10
        | dot(w, PAR2) << 9
        | dot(w, PAR3) << 8
        | dot(w, PAR4) << 7
        | dot(w, PAR5) << 6
        | dot(w, PAR6) << 5
        | dot(w, PAR7) << 4
        | dot(w, PAR8) << 3
        | dot(w, PAR9) << 2
        | dot(w, PAR10) << 1
        | dot(w, PAR11)
}

/// The product of the word `w` with **G**.
pub open spec fn syndrome_alt(w: u32) -> u32 {
    dot(w, PAR_ALT0) << 11
        | dot(w, PAR_ALT1) << 10
        | dot(w, PAR_ALT2) << 9
        | dot(w, PAR_ALT3) << 8
        | dot(w, PAR_ALT4) << 7
        | dot(w, PAR_ALT5) << 6
        | dot(w, PAR_ALT6) << 5
        | dot(w, PAR_ALT7) << 4
        | dot(w, PAR_ALT8) << 3
        | dot(w, PAR_ALT9) << 2
        | dot(w, PAR_ALT10) << 1
        | dot(w, PAR_ALT11)
}

/// Row `i` of **A**^T.
pub open spec fn xpose_row(i: u32) -> u32 {
    if i == 0 {
        XPOSE0 as u32
    } else if i == 1 {
        XPOSE1 as u32
    } else if i == 2 {
        XPOSE2 as u32
    } else if i == 3 {
        XPOSE3 as u32
    } else if i == 4 {
        XPOSE4 as u32
    } else if i == 5 {
        XPOSE5 as u32
    } else if i == 6 {
        XPOSE6 as u32
    } else if i == 7 {
        XPOSE7 as u32
    } else if i == 8 {
        XPOSE8 as u32
    } else if i == 9 {
        XPOSE9 as u32
    } else if i == 10 {
        XPOSE10 as u32
    } else {
        XPOSE11 as u32
    }
}

/// Row `i` of **A**.
pub open spec fn core_row(i: u32) -> u32 {
    if i == 0 {
        CORE0 as u32
    } else if i == 1 {
        CORE1 as u32
    } else if i == 2 {
        CORE2 as u32
    } else if i == 3 {
        CORE3 as u32
    } else if i == 4 {
        CORE4 as u32
    } else if i == 5 {
        CORE5 as u32
    } else if i == 6 {
        CORE6 as u32
    } else if i == 7 {
        CORE7 as u32
    } else if i == 8 {
        CORE8 as u32
    } else if i == 9 {
        CORE9 as u32
    } else if i == 10 {
        CORE10 as u32
    } else {
        CORE11 as u32
    }
}

/// `s` lies within two bits of some row of **A**^T.
pub open spec fn near_xpose_row(s: u32) -> bool {
    ones(s ^ XPOSE0 as u32) <= 2
        || ones(s ^ XPOSE1 as u32) <= 2
        || ones(s ^ XPOSE2 as u32) <= 2
        || ones(s ^ XPOSE3 as u32) <= 2
        || ones(s ^ XPOSE4 as u32) <= 2
        || ones(s ^ XPOSE5 as u32) <= 2
        || ones(s ^ XPOSE6 as u32) <= 2
        || ones(s ^ XPOSE7 as u32) <= 2
        || ones(s ^ XPOSE8 as u32) <= 2
        || ones(s ^ XPOSE9 as u32) <= 2
        || ones(s ^ XPOSE10 as u32) <= 2
        || ones(s ^ XPOSE11 as u32) <= 2
}

/// `s` lies within two bits of some row of **A**.
pub open spec fn near_core_row(s: u32) -> bool {
    ones(s ^ CORE0 as u32) <= 2
        || ones(s ^ CORE1 as u32) <= 2
        || ones(s ^ CORE2 as u32) <= 2
        || ones(s ^ CORE3 as u32) <= 2
        || ones(s ^ CORE4 as u32) <= 2
        || ones(s ^ CORE5 as u32) <= 2
        || ones(s ^ CORE6 as u32) <= 2
        || ones(s ^ CORE7 as u32) <= 2
        || ones(s ^ CORE8 as u32) <= 2
        || ones(s ^ CORE9 as u32) <= 2
        || ones(s ^ CORE10 as u32) <= 2
        || ones(s ^ CORE11 as u32) <= 2
}

/// `r` is what decoding the word `w` gives: the data of a codeword within three bits of
/// `w`, with the number of differing bits; or `None` when there is no such codeword.
pub open spec fn decodes_to(w: u32, r: Option<(u16, usize)>) -> bool {
    match r {
        Some((d, n)) => d < 4096 && n <= 3 && ones(codeword(d as u32) ^ w) as int == n as int,
        None => forall|d: u32| d < 4096 ==> ones(#[trigger] codeword(d) ^ w) > 3,
    }
}

proof fn lemma_codeword_from_bits(d: u32, r: u32)
    by (bit_vector)
    requires
        d < 4096,
        r >> 12 == d,
        bit(r, 11) == dot(d, XPOSE0 as u32),
        bit(r, 10) == dot(d, XPOSE1 as u32),
        bit(r, 9) == dot(d, XPOSE2 as u32),
        bit(r, 8) == dot(d, XPOSE3 as u32),
        bit(r, 7) == dot(d, XPOSE4 as u32),
        bit(r, 6) == dot(d, XPOSE5 as u32),
        bit(r, 5) == dot(d, XPOSE6 as u32),
        bit(r, 4) == dot(d, XPOSE7 as u32),
        bit(r, 3) == dot(d, XPOSE8 as u32),
        bit(r, 2) == dot(d, XPOSE9 as u32),
        bit(r, 1) == dot(d, XPOSE10 as u32),
        bit(r, 0) == dot(d, XPOSE11 as u32),
    ensures
        r == codeword(d),
{
}

proof fn lemma_codeword_of(d: u16, r: u32, rows: Seq<u16>)
    requires
        d < 4096,
        rows == seq![XPOSE0, XPOSE1, XPOSE2, XPOSE3, XPOSE4, XPOSE5, XPOSE6, XPOSE7, XPOSE8, XPOSE9, XPOSE10, XPOSE11],
        r >> 12 == d as u32,
        forall|k: int|
            0 <= k < rows.len() ==> bit(r, (rows.len() - 1 - k) as u32) == dot(
                d as u32,
                (#[trigger] rows[k]) as u32,
            ),
    ensures
        r == codeword(d as u32),
{
    assert(rows[0] == XPOSE0);
    assert(rows[1] == XPOSE1);
    assert(rows[2] == XPOSE2);
    assert(rows[3] == XPOSE3);
    assert(rows[4] == XPOSE4);
    assert(rows[5] == XPOSE5);
    assert(rows[6] == XPOSE6);
    assert(rows[7] == XPOSE7);
    assert(rows[8] == XPOSE8);
    assert(rows[9] == XPOSE9);
    assert(rows[10] == XPOSE10);
    assert(rows[11] == XPOSE11);
    lemma_codeword_from_bits(d as u32, r);
}

proof fn lemma_syndrome_from_bits(w: u32, s: u32)
    by (bit_vector)
    requires
        s >> 12 == 0,
        bit(s, 11) == dot(w, PAR0),
        bit(s, 10) == dot(w, PAR1),
        bit(s, 9) == dot(w, PAR2),
        bit(s, 8) == dot(w, PAR3),
        bit(s, 7) == dot(w, PAR4),
        bit(s, 6) == dot(w, PAR5),
        bit(s, 5) == dot(w, PAR6),
        bit(s, 4) == dot(w, PAR7),
        bit(s, 3) == dot(w, PAR8),
        bit(s, 2) == dot(w, PAR9),
        bit(s, 1) == dot(w, PAR10),
        bit(s, 0) == dot(w, PAR11),
    ensures
        s == syndrome(w),
        s < 4096,
{
}

proof fn lemma_syndrome_alt_from_bits(w: u32, s: u32)
    by (bit_vector)
    requires
        s >> 12 == 0,
        bit(s, 11) == dot(w, PAR_ALT0),
        bit(s, 10) == dot(w, PAR_ALT1),
        bit(s, 9) == dot(w, PAR_ALT2),
        bit(s, 8) == dot(w, PAR_ALT3),
        bit(s, 7) == dot(w, PAR_ALT4),
        bit(s, 6) == dot(w, PAR_ALT5),
        bit(s, 5) == dot(w, PAR_ALT6),
        bit(s, 4) == dot(w, PAR_ALT7),
        bit(s, 3) == dot(w, PAR_ALT8),
        bit(s, 2) == dot(w, PAR_ALT9),
        bit(s, 1) == dot(w, PAR_ALT10),
        bit(s, 0) == dot(w, PAR_ALT11),
    ensures
        s == syndrome_alt(w),
        s < 4096,
{
}

proof fn lemma_syndrome_of(w: u32, s: u16, rows: Seq<u32>)
    requires
        rows == seq![PAR0, PAR1, PAR2, PAR3, PAR4, PAR5, PAR6, PAR7, PAR8, PAR9, PAR10, PAR11],
        (s as u32) >> 12 == 0,
        forall|k: int|
            0 <= k < rows.len() ==> bit(s as u32, (rows.len() - 1 - k) as u32) == dot(
                w,
                #[trigger] rows[k],
            ),
    ensures
        s as u32 == syndrome(w),
        (s as u32) < 4096,
{
    assert(rows[0] == PAR0);
    assert(rows[1] == PAR1);
    assert(rows[2] == PAR2);
    assert(rows[3] == PAR3);
    assert(rows[4] == PAR4);
    assert(rows[5] == PAR5);
    assert(rows[6] == PAR6);
    assert(rows[7] == PAR7);
    assert(rows[8] == PAR8);
    assert(rows[9] == PAR9);
    assert(rows[10] == PAR10);
    assert(rows[11] == PAR11);
    lemma_syndrome_from_bits(w, s as u32);
}

proof fn lemma_syndrome_alt_of(w: u32, s: u16, rows: Seq<u32>)
    requires
        rows == seq![PAR_ALT0, PAR_ALT1, PAR_ALT2, PAR_ALT3, PAR_ALT4, PAR_ALT5, PAR_ALT6, PAR_ALT7, PAR_ALT8, PAR_ALT9, PAR_ALT10, PAR_ALT11],
        (s as u32) >> 12 == 0,
        forall|k: int|
            0 <= k < rows.len() ==> bit(s as u32, (rows.len() - 1 - k) as u32) == dot(
                w,
                #[trigger] rows[k],
            ),
    ensures
        s as u32 == syndrome_alt(w),
        (s as u32) < 4096,
{
    assert(rows[0] == PAR_ALT0);
    assert(rows[1] == PAR_ALT1);
    assert(rows[2] == PAR_ALT2);
    assert(rows[3] == PAR_ALT3);
    assert(rows[4] == PAR_ALT4);
    assert(rows[5] == PAR_ALT5);
    assert(rows[6] == PAR_ALT6);
    assert(rows[7] == PAR_ALT7);
    assert(rows[8] == PAR_ALT8);
    assert(rows[9] == PAR_ALT9);
    assert(rows[10] == PAR_ALT10);
    assert(rows[11] == PAR_ALT11);
    lemma_syndrome_alt_from_bits(w, s as u32);
}

proof fn lemma_rows(xs: Seq<u16>, cs: Seq<u16>)
    requires
        xs == seq![XPOSE0, XPOSE1, XPOSE2, XPOSE3, XPOSE4, XPOSE5, XPOSE6, XPOSE7, XPOSE8, XPOSE9, XPOSE10, XPOSE11],
        cs == seq![CORE0, CORE1, CORE2, CORE3, CORE4, CORE5, CORE6, CORE7, CORE8, CORE9, CORE10, CORE11],
    ensures
        forall|i: u32| i < 12 ==> xpose_row(i) == (#[trigger] xs[i as int]) as u32,
        forall|j: int| 0 <= j < 12 ==> core_row(j as u32) == (#[trigger] cs[j]) as u32,
{
    assert(xs[0] == XPOSE0);
    assert(xs[1] == XPOSE1);
    assert(xs[2] == XPOSE2);
    assert(xs[3] == XPOSE3);
    assert(xs[4] == XPOSE4);
    assert(xs[5] == XPOSE5);
    assert(xs[6] == XPOSE6);
    assert(xs[7] == XPOSE7);
    assert(xs[8] == XPOSE8);
    assert(xs[9] == XPOSE9);
    assert(xs[10] == XPOSE10);
    assert(xs[11] == XPOSE11);
    assert(cs[0] == CORE0);
    assert(cs[1] == CORE1);
    assert(cs[2] == CORE2);
    assert(cs[3] == CORE3);
    assert(cs[4] == CORE4);
    assert(cs[5] == CORE5);
    assert(cs[6] == CORE6);
    assert(cs[7] == CORE7);
    assert(cs[8] == CORE8);
    assert(cs[9] == CORE9);
    assert(cs[10] == CORE10);
    assert(cs[11] == CORE11);
}

proof fn lemma_not_near(s: u32, rows: Seq<u16>)
    requires
        rows == seq![XPOSE0, XPOSE1, XPOSE2, XPOSE3, XPOSE4, XPOSE5, XPOSE6, XPOSE7, XPOSE8, XPOSE9, XPOSE10, XPOSE11],
        forall|j: int| 0 <= j < 12 ==> ones(s ^ (#[trigger] rows[j]) as u32) > 2,
    ensures
        !near_xpose_row(s),
{
    assert(ones(s ^ rows[0] as u32) > 2);
    assert(ones(s ^ rows[1] as u32) > 2);
    assert(ones(s ^ rows[2] as u32) > 2);
    assert(ones(s ^ rows[3] as u32) > 2);
    assert(ones(s ^ rows[4] as u32) > 2);
    assert(ones(s ^ rows[5] as u32) > 2);
    assert(ones(s ^ rows[6] as u32) > 2);
    assert(ones(s ^ rows[7] as u32) > 2);
    assert(ones(s ^ rows[8] as u32) > 2);
    assert(ones(s ^ rows[9] as u32) > 2);
    assert(ones(s ^ rows[10] as u32) > 2);
    assert(ones(s ^ rows[11] as u32) > 2);
}

proof fn lemma_not_near_core(s: u32, rows: Seq<u16>)
    requires
        rows == seq![CORE0, CORE1, CORE2, CORE3, CORE4, CORE5, CORE6, CORE7, CORE8, CORE9, CORE10, CORE11],
        forall|j: int| 0 <= j < 12 ==> ones(s ^ (#[trigger] rows[j]) as u32) > 2,
    ensures
        !near_core_row(s),
{
    assert(ones(s ^ rows[0] as u32) > 2);
    assert(ones(s ^ rows[1] as u32) > 2);
    assert(ones(s ^ rows[2] as u32) > 2);
    assert(ones(s ^ rows[3] as u32) > 2);
    assert(ones(s ^ rows[4] as u32) > 2);
    assert(ones(s ^ rows[5] as u32) > 2);
    assert(ones(s ^ rows[6] as u32) > 2);
    assert(ones(s ^ rows[7] as u32) > 2);
    assert(ones(s ^ rows[8] as u32) > 2);
    assert(ones(s ^ rows[9] as u32) > 2);
    assert(ones(s ^ rows[10] as u32) > 2);
    assert(ones(s ^ rows[11] as u32) > 2);
}

proof fn lemma_all_stages_fail(e: u32, s: u32, t: u32)
    by (bit_vector)
    requires
        e < 0x1000000,
        s == syndrome_alt(e),
        t == syndrome(e),
        ones(s) > 3,
        !near_xpose_row(s),
        ones(t) > 3,
        !near_core_row(t),
    ensures
        ones(e) > 3,
{
}

proof fn lemma_pattern(delta: u32, x: u32)
    by (bit_vector)
    requires
        delta < 4096,
        x < 4096,
    ensures
        ones(delta << 12 | x) == ones(delta) + ones(x),
        ones(0u32) == 0,
{
}

proof fn lemma_stage_upper(w: u32, s: u32, d: u32)
    by (bit_vector)
    requires
        w < 0x1000000,
        s == syndrome_alt(w),
        d == (w >> 12) ^ s,
    ensures
        d < 4096,
        codeword(d) ^ w == s << 12 | 0,
{
}

proof fn lemma_stage_upper_parity(w: u32, s: u32, k: u32, d: u32)
    by (bit_vector)
    requires
        w < 0x1000000,
        s == syndrome_alt(w),
        k < 12,
        d == (w >> 12) ^ (s ^ xpose_row(k)),
    ensures
        d < 4096,
        s ^ xpose_row(k) < 4096,
        (1u32 << ((11 - k) as u32)) < 4096,
        ones(1u32 << ((11 - k) as u32)) == 1,
        codeword(d) ^ w == (s ^ xpose_row(k)) << 12 | (1u32 << ((11 - k) as u32)),
{
}

proof fn lemma_stage_lower(w: u32, s: u32)
    by (bit_vector)
    requires
        w < 0x1000000,
        s == syndrome(w),
    ensures
        (w >> 12) < 4096,
        codeword(w >> 12) ^ w == 0u32 << 12 | s,
{
}

proof fn lemma_stage_lower_data(w: u32, s: u32, i: u32, d: u32)
    by (bit_vector)
    requires
        w < 0x1000000,
        s == syndrome(w),
        i < 12,
        d == (w >> 12) ^ (0x800u32 >> i),
    ensures
        d < 4096,
        s < 4096 ==> s ^ core_row(i) < 4096,
        (0x800u32 >> i) < 4096,
        ones(0x800u32 >> i) == 1,
        codeword(d) ^ w == (0x800u32 >> i) << 12 | (s ^ core_row(i)),
{
}

proof fn lemma_stage_lower_data_weight(e: u32, u: u32, x: u32, s: u32)
    by (bit_vector)
    requires
        ones(u) == 1,
        u < 4096,
        x < 4096,
        ones(x) <= 2,
        e == u << 12 | x,
        s == syndrome_alt(e),
        ones(s) > 3,
        !near_xpose_row(s),
    ensures
        ones(x) == 2,
{
}

proof fn lemma_codeword_linear(a: u32, b: u32)
    by (bit_vector)
    requires
        a < 4096,
        b < 4096,
    ensures
        codeword(a ^ b) == codeword(a) ^ codeword(b),
        a ^ b < 4096,
        a ^ b == 0 ==> a == b,
{
}

proof fn lemma_error_syndrome_alt(d: u32, w: u32, c: u32)
    by (bit_vector)
    requires
        d < 4096,
        w < 0x1000000,
        c == codeword(d),
    ensures
        syndrome_alt(c ^ w) == syndrome_alt(w),
        syndrome(c ^ w) == syndrome(w),
        c ^ w < 0x1000000,
{
}

proof fn lemma_min_weight(d: u32, c: u32)
    by (bit_vector)
    requires
        c == codeword(d),
    ensures
        0 < d < 4096 ==> ones(c) >= 8,
{
}

/// Encode the given 12 data bits into a 24-bit codeword.
pub fn encode(data: u16) -> (r: u32)
    requires
        data < 4096,
    ensures
        r == codeword(data as u32),
{
    let xpose: [u16; 12] = [XPOSE0, XPOSE1, XPOSE2, XPOSE3, XPOSE4, XPOSE5, XPOSE6, XPOSE7, XPOSE8, XPOSE9, XPOSE10, XPOSE11];
    let rows: &[u16] = &xpose;
    let r = matrix_mul_systematic(data, rows);
    proof {
        lemma_codeword_of(data, r, rows@);
    }
    r
}

/// Try to decode the given 24-bit word to the nearest codeword, correcting up to 3
/// errors and detecting 4 errors.
///
/// On success this returns `Some((data, err))`, where `data` is the 12 data bits and `err`
/// is the number of corrected bits; `None` reports an uncorrectable word.
#[verifier::rlimit(100)]
pub fn decode(word: u32) -> (r: Option<(u16, usize)>)
    requires
        word < 0x1000000,
    ensures
        decodes_to(word, r),
{
    let data: u32 = word >> 12;
    let xpose: [u16; 12] = [XPOSE0, XPOSE1, XPOSE2, XPOSE3, XPOSE4, XPOSE5, XPOSE6, XPOSE7, XPOSE8, XPOSE9, XPOSE10, XPOSE11];
    let core: [u16; 12] = [CORE0, CORE1, CORE2, CORE3, CORE4, CORE5, CORE6, CORE7, CORE8, CORE9, CORE10, CORE11];
    let par: [u32; 12] = [PAR0, PAR1, PAR2, PAR3, PAR4, PAR5, PAR6, PAR7, PAR8, PAR9, PAR10, PAR11];
    let par_alt: [u32; 12] = [PAR_ALT0, PAR_ALT1, PAR_ALT2, PAR_ALT3, PAR_ALT4, PAR_ALT5, PAR_ALT6, PAR_ALT7, PAR_ALT8, PAR_ALT9, PAR_ALT10, PAR_ALT11];
    let par_rows: &[u32] = &par;
    let alt_rows: &[u32] = &par_alt;
    proof {
        lemma_rows(xpose@, core@);
    }

    // Errors isolated to the upper 12 bits.
    let s: u16 = matrix_mul(word, alt_rows);
    proof {
        lemma_syndrome_alt_of(word, s, alt_rows@);
    }
    let s: u32 = s as u32;
    let n = count_ones(s);
    if n <= 3 {
        let d: u32 = data ^ s;
        proof {
            lemma_stage_upper(word, s, d);
            lemma_pattern(s, 0);
        }
        return Some((d as u16, n as usize));
    }

    // One error in the lower 12 bits and up to two in the upper 12 bits.
    let mut k: usize = 0;
    while k < 12
        invariant
            k <= 12,
            xpose@ == seq![XPOSE0, XPOSE1, XPOSE2, XPOSE3, XPOSE4, XPOSE5, XPOSE6, XPOSE7, XPOSE8, XPOSE9, XPOSE10, XPOSE11],
            forall|j: int| 0 <= j < k ==> ones(s ^ (#[trigger] xpose@[j]) as u32) > 2,
            forall|i: u32| i < 12 ==> xpose_row(i) == (#[trigger] xpose@[i as int]) as u32,
            word < 0x1000000,
            data == word >> 12,
            s == syndrome_alt(word),
        decreases 12 - k,
    {
        let syn: u32 = s ^ (xpose[k] as u32);
        let n = count_ones(syn);
        if n <= 2 {
            let d: u32 = data ^ syn;
            proof {
                lemma_stage_upper_parity(word, s, k as u32, d);
                lemma_pattern(syn, 1u32 << ((11 - k as u32) as u32));
            }
            return Some((d as u16, (n + 1) as usize));
        }
        k += 1;
    }
    proof {
        lemma_not_near(s, xpose@);
    }

    // Errors isolated to the lower 12 bits.
    let t: u16 = matrix_mul(word, par_rows);
    proof {
        lemma_syndrome_of(word, t, par_rows@);
    }
    let t: u32 = t as u32;
    let n = count_ones(t);
    if n <= 3 {
        proof {
            lemma_stage_lower(word, t);
            lemma_pattern(0, t);
        }
        return Some((data as u16, n as usize));
    }

    // One error in the upper 12 bits and two in the lower 12 bits.
    let mut i: usize = 0;
    while i < 12
        invariant
            i <= 12,
            forall|j: int| 0 <= j < 12 ==> core_row(j as u32) == (#[trigger] core@[j]) as u32,
            word < 0x1000000,
            data == word >> 12,
            s == syndrome_alt(word),
            ones(s) > 3,
            !near_xpose_row(s),
            t == syndrome(word),
            t < 4096,
            ones(t) > 3,
            core@ == seq![CORE0, CORE1, CORE2, CORE3, CORE4, CORE5, CORE6, CORE7, CORE8, CORE9, CORE10, CORE11],
            forall|j: int| 0 <= j < i ==> ones(t ^ (#[trigger] core@[j]) as u32) > 2,
        decreases 12 - i,
    {
        let syn: u32 = t ^ (core[i] as u32);
        let m = count_ones(syn);
        if m <= 2 {
            let err: u32 = 0x800u32 >> (i as u32);
            let d: u32 = data ^ err;
            proof {
                lemma_stage_lower_data(word, t, i as u32, d);
                lemma_pattern(err, syn);
                lemma_error_syndrome_alt(d, word, codeword(d));
                lemma_stage_lower_data_weight(codeword(d) ^ word, err, syn, s);
            }
            return Some((d as u16, 3));
        }
        i += 1;
    }
    proof {
        lemma_not_near_core(t, core@);
        assert forall|d: u32| d < 4096 implies ones(#[trigger] codeword(d) ^ word) > 3 by {
            lemma_error_syndrome_alt(d, word, codeword(d));
            lemma_all_stages_fail(codeword(d) ^ word, s, t);
        }
    }
    None
}

/// Of two codewords within three bits of one word, the data words are equal: the code's
/// minimum distance is eight.
pub proof fn lemma_unique_within_three(d1: u32, d2: u32, w: u32)
    requires
        d1 < 4096,
        d2 < 4096,
        ones(codeword(d1) ^ w) <= 3,
        ones(codeword(d2) ^ w) <= 3,
    ensures
        d1 == d2,
{
    let c1 = codeword(d1);
    let c2 = codeword(d2);
    lemma_ones_xor_le(c1 ^ w, c2 ^ w);
    lemma_codeword_linear(d1, d2);
    let c = codeword(d1 ^ d2);
    assert((c1 ^ w) ^ (c2 ^ w) == c1 ^ c2) by (bit_vector);
    lemma_min_weight(d1 ^ d2, c);
}

/// Flipping exactly four bits of a codeword never decodes to a result: no codeword lies
/// within three bits of the word.
pub proof fn lemma_detects_four(d: u32, e: u32, r: Option<(u16, usize)>)
    requires
        d < 4096,
        e < 0x1000000,
        ones(e) == 4,
        decodes_to(codeword(d) ^ e, r),
    ensures
        r is None,
{
    if let Some((d2, n)) = r {
        let c = codeword(d);
        let c2 = codeword(d2 as u32);
        let w = c ^ e;
        lemma_ones_xor_le(c2 ^ w, e);
        assert((c2 ^ w) ^ e == c2 ^ c && c ^ w == e) by (bit_vector)
            requires
                w == c ^ e,
        ;
        lemma_codeword_linear(d2 as u32, d);
        lemma_min_weight(d2 as u32 ^ d, codeword(d2 as u32 ^ d));
    }
}


/// Decoding the codeword of any data word gives back that data word, with no bit
/// corrected.
pub proof fn lemma_round_trip(d: u32, r: Option<(u16, usize)>)
    requires
        d < 4096,
        decodes_to(codeword(d), r),
    ensures
        r == Some((d as u16, 0usize)),
{
    let c = codeword(d);
    assert(c ^ c == 0 && ones(0u32) == 0) by (bit_vector);
    match r {
        Some((d2, n)) => {
            lemma_unique_within_three(d2 as u32, d, c);
        },
        None => {
            assert(ones(codeword(d) ^ c) > 3);
        },
    }
}

/// Flipping up to three bits of a codeword decodes to the original data with the number
/// of flipped bits.
pub proof fn lemma_corrects_up_to_three(d: u32, e: u32, r: Option<(u16, usize)>)
    requires
        d < 4096,
        e < 0x1000000,
        ones(e) <= 3,
        decodes_to(codeword(d) ^ e, r),
    ensures
        r == Some((d as u16, ones(e) as usize)),
{
    let c = codeword(d);
    let w = c ^ e;
    assert(c ^ (c ^ e) == e) by (bit_vector);
    match r {
        Some((d2, n)) => {
            lemma_unique_within_three(d2 as u32, d, w);
        },
        None => {
            assert(ones(codeword(d) ^ w) > 3);
        },
    }
}

/// The outcome of decoding is determined by the word alone: in particular a word found
/// uncorrectable is found so on every decoding.
pub proof fn lemma_decoding_determined(w: u32, r1: Option<(u16, usize)>, r2: Option<(u16, usize)>)
    requires
        decodes_to(w, r1),
        decodes_to(w, r2),
    ensures
        r1 == r2,
{
    match r1 {
        Some((d1, n1)) => {
            match r2 {
                Some((d2, n2)) => {
                    lemma_unique_within_three(d1 as u32, d2 as u32, w);
                },
                None => {
                    assert(ones(codeword(d1 as u32) ^ w) > 3);
                },
            }
        },
        None => {
            if let Some((d2, n2)) = r2 {
                assert(ones(codeword(d2 as u32) ^ w) > 3);
            }
        },
    }
}

} // verus!
