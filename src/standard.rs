//! Encoding and decoding of the (23, 12, 7) standard Golay code.
//!
//! A codeword holds its 12 data bits in bits 22..11 and its 11 parity bits in bits 10..0.
use vstd::prelude::*;
use crate::bits::{bit, count_ones, dot, lemma_ones_xor_le, matrix_mul, matrix_mul_systematic, ones};

verus! {

// Rows of the transpose of the generator parity submatrix, **A**^T (the extended code's
// table without its last row).
pub const XPOSE0: u16 = 0b101001001111;
pub const XPOSE1: u16 = 0b111101101000;
pub const XPOSE2: u16 = 0b011110110100;
pub const XPOSE3: u16 = 0b001111011010;
pub const XPOSE4: u16 = 0b000111101101;
pub const XPOSE5: u16 = 0b101010111001;
pub const XPOSE6: u16 = 0b111100010011;
pub const XPOSE7: u16 = 0b110111000110;
pub const XPOSE8: u16 = 0b011011100011;
pub const XPOSE9: u16 = 0b100100111110;
pub const XPOSE10: u16 = 0b010010011111;

// Rows of the parity-check matrix **H** = [ **A**^T | I ].
pub const PAR0: u32 = 0b10100100111110000000000;
pub const PAR1: u32 = 0b11110110100001000000000;
pub const PAR2: u32 = 0b01111011010000100000000;
pub const PAR3: u32 = 0b00111101101000010000000;
pub const PAR4: u32 = 0b00011110110100001000000;
pub const PAR5: u32 = 0b10101011100100000100000;
pub const PAR6: u32 = 0b11110001001100000010000;
pub const PAR7: u32 = 0b11011100011000000001000;
pub const PAR8: u32 = 0b01101110001100000000100;
pub const PAR9: u32 = 0b10010011111000000000010;
pub const PAR10: u32 = 0b01001001111100000000001;

// Syndromes of a single error in data bit `i` (bit `11 + i` of the word), for `i` from the
// data LSB up to the data MSB.
pub const SYN0: u16 = 0b10001110101;
pub const SYN1: u16 = 0b10010011111;
pub const SYN2: u16 = 0b10101001011;
pub const SYN3: u16 = 0b11011100011;
pub const SYN4: u16 = 0b00110110011;
pub const SYN5: u16 = 0b01101100110;
pub const SYN6: u16 = 0b11011001100;
pub const SYN7: u16 = 0b00111101101;
pub const SYN8: u16 = 0b01111011010;
pub const SYN9: u16 = 0b11110110100;
pub const SYN10: u16 = 0b01100011101;
pub const SYN11: u16 = 0b11000111010;

/// The 11 parity bits of the data word `d`: the product of `d` with **A**.
pub open spec fn parity_bits(d: u32) -> u32 {
    dot(d, XPOSE0 as u32) << 10
        | dot(d, XPOSE1 as u32) << 9
        | dot(d, XPOSE2 as u32) << 8
        | dot(d, XPOSE3 as u32) << 7
        | dot(d, XPOSE4 as u32) << 6
        | dot(d, XPOSE5 as u32) << 5
        | dot(d, XPOSE6 as u32) << 4
        | dot(d, XPOSE7 as u32) << 3
        | dot(d, XPOSE8 as u32) << 2
        | dot(d, XPOSE9 as u32) << 1
        | dot(d, XPOSE10 as u32)
}

/// The codeword of the data word `d`: `d` above its parity bits.
pub open spec fn codeword(d: u32) -> u32 {
    d << 11 | parity_bits(d)
}

/// The syndrome of the word `w`: its product with **H**, zero exactly on codewords.
pub open spec fn syndrome(w: u32) -> u32 {
    dot(w, PAR0) << 10
        | dot(w, PAR1) << 9
        | dot(w, PAR2) << 8
        | dot(w, PAR3) << 7
        | dot(w, PAR4) << 6
        | dot(w, PAR5) << 5
        | dot(w, PAR6) << 4
        | dot(w, PAR7) << 3
        | dot(w, PAR8) << 2
        | dot(w, PAR9) << 1
        | dot(w, PAR10)
}

/// The 23-bit word `w` rotated right by 11 places.
pub open spec fn rotated(w: u32) -> u32 {
    (w >> 11) | ((w & 0x7FF) << 12)
}

/// The syndrome of a single error in data bit `i`.
pub open spec fn syn_row(i: u32) -> u32 {
    if i == 0 {
        SYN0 as u32
    } else if i == 1 {
        SYN1 as u32
    } else if i == 2 {
        SYN2 as u32
    } else if i == 3 {
        SYN3 as u32
    } else if i == 4 {
        SYN4 as u32
    } else if i == 5 {
        SYN5 as u32
    } else if i == 6 {
        SYN6 as u32
    } else if i == 7 {
        SYN7 as u32
    } else if i == 8 {
        SYN8 as u32
    } else if i == 9 {
        SYN9 as u32
    } else if i == 10 {
        SYN10 as u32
    } else {
        SYN11 as u32
    }
}

/// `s` lies within two bits of the syndrome of some single data-bit error.
pub open spec fn near_data_syndrome(s: u32) -> bool {
    ones(s ^ SYN0 as u32) <= 2
        || ones(s ^ SYN1 as u32) <= 2
        || ones(s ^ SYN2 as u32) <= 2
        || ones(s ^ SYN3 as u32) <= 2
        || ones(s ^ SYN4 as u32) <= 2
        || ones(s ^ SYN5 as u32) <= 2
        || ones(s ^ SYN6 as u32) <= 2
        || ones(s ^ SYN7 as u32) <= 2
        || ones(s ^ SYN8 as u32) <= 2
        || ones(s ^ SYN9 as u32) <= 2
        || ones(s ^ SYN10 as u32) <= 2
        || ones(s ^ SYN11 as u32) <= 2
}

/// `t` lies one bit away from the sum of the syndromes of an error in the data MSB and
/// of an error in some data bit other than the LSB.
pub open spec fn near_msb_pair(t: u32) -> bool {
    ones(t ^ SYN0 as u32 ^ SYN1 as u32) == 1
        || ones(t ^ SYN0 as u32 ^ SYN2 as u32) == 1
        || ones(t ^ SYN0 as u32 ^ SYN3 as u32) == 1
        || ones(t ^ SYN0 as u32 ^ SYN4 as u32) == 1
        || ones(t ^ SYN0 as u32 ^ SYN5 as u32) == 1
        || ones(t ^ SYN0 as u32 ^ SYN6 as u32) == 1
        || ones(t ^ SYN0 as u32 ^ SYN7 as u32) == 1
        || ones(t ^ SYN0 as u32 ^ SYN8 as u32) == 1
        || ones(t ^ SYN0 as u32 ^ SYN9 as u32) == 1
        || ones(t ^ SYN0 as u32 ^ SYN10 as u32) == 1
        || ones(t ^ SYN0 as u32 ^ SYN11 as u32) == 1
}

/// `r` is what decoding the word `w` gives: the data of a codeword within three bits of
/// `w`, with the number of differing bits; or `None` when there is no such codeword.
pub open spec fn decodes_to(w: u32, r: Option<(u16, usize)>) -> bool {
    match r {
        Some((d, n)) => d < 4096 && n <= 3 && ones(codeword(d as u32) ^ w) as int == n as int,
        None => forall|d: u32| d < 4096 ==> ones(#[trigger] codeword(d) ^ w) > 3,
    }
}

proof fn lemma_codeword_from_bits(d: u32, r: u32)
    by (bit_vector)
    requires
        d < 4096,
        r >> 11 == d,
        bit(r, 10) == dot(d, XPOSE0 as u32),
        bit(r, 9) == dot(d, XPOSE1 as u32),
        bit(r, 8) == dot(d, XPOSE2 as u32),
        bit(r, 7) == dot(d, XPOSE3 as u32),
        bit(r, 6) == dot(d, XPOSE4 as u32),
        bit(r, 5) == dot(d, XPOSE5 as u32),
        bit(r, 4) == dot(d, XPOSE6 as u32),
        bit(r, 3) == dot(d, XPOSE7 as u32),
        bit(r, 2) == dot(d, XPOSE8 as u32),
        bit(r, 1) == dot(d, XPOSE9 as u32),
        bit(r, 0) == dot(d, XPOSE10 as u32),
    ensures
        r == codeword(d),
{
}

proof fn lemma_syndrome_from_bits(w: u32, s: u32)
    by (bit_vector)
    requires
        s >> 11 == 0,
        bit(s, 10) == dot(w, PAR0),
        bit(s, 9) == dot(w, PAR1),
        bit(s, 8) == dot(w, PAR2),
        bit(s, 7) == dot(w, PAR3),
        bit(s, 6) == dot(w, PAR4),
        bit(s, 5) == dot(w, PAR5),
        bit(s, 4) == dot(w, PAR6),
        bit(s, 3) == dot(w, PAR7),
        bit(s, 2) == dot(w, PAR8),
        bit(s, 1) == dot(w, PAR9),
        bit(s, 0) == dot(w, PAR10),
    ensures
        s == syndrome(w),
        s < 0x800,
{
}

proof fn lemma_codeword_of(d: u16, r: u32, rows: Seq<u16>)
    requires
        d < 4096,
        rows == seq![XPOSE0, XPOSE1, XPOSE2, XPOSE3, XPOSE4, XPOSE5, XPOSE6, XPOSE7, XPOSE8, XPOSE9, XPOSE10],
        r >> 11 == d as u32,
        forall|k: int|
            0 <= k < rows.len() ==> bit(r, (rows.len() - 1 - k) as u32) == dot(
                d as u32,
                (#[trigger] rows[k]) as u32,
            ),
    ensures
        r == codeword(d as u32),
{
    assert(rows[0] == XPOSE0);
    assert(rows[1] == XPOSE1);
    assert(rows[2] == XPOSE2);
    assert(rows[3] == XPOSE3);
    assert(rows[4] == XPOSE4);
    assert(rows[5] == XPOSE5);
    assert(rows[6] == XPOSE6);
    assert(rows[7] == XPOSE7);
    assert(rows[8] == XPOSE8);
    assert(rows[9] == XPOSE9);
    assert(rows[10] == XPOSE10);
    lemma_codeword_from_bits(d as u32, r);
}

proof fn lemma_syndrome_of(w: u32, s: u16, rows: Seq<u32>)
    requires
        rows == seq![PAR0, PAR1, PAR2, PAR3, PAR4, PAR5, PAR6, PAR7, PAR8, PAR9, PAR10],
        (s as u32) >> 11 == 0,
        forall|k: int|
            0 <= k < rows.len() ==> bit(s as u32, (rows.len() - 1 - k) as u32) == dot(
                w,
                #[trigger] rows[k],
            ),
    ensures
        s as u32 == syndrome(w),
        (s as u32) < 0x800,
{
    assert(rows[0] == PAR0);
    assert(rows[1] == PAR1);
    assert(rows[2] == PAR2);
    assert(rows[3] == PAR3);
    assert(rows[4] == PAR4);
    assert(rows[5] == PAR5);
    assert(rows[6] == PAR6);
    assert(rows[7] == PAR7);
    assert(rows[8] == PAR8);
    assert(rows[9] == PAR9);
    assert(rows[10] == PAR10);
    lemma_syndrome_from_bits(w, s as u32);
}

proof fn lemma_syn_rows(rows: Seq<u16>)
    requires
        rows == seq![SYN0, SYN1, SYN2, SYN3, SYN4, SYN5, SYN6, SYN7, SYN8, SYN9, SYN10, SYN11],
    ensures
        forall|i: u32| i < 12 ==> syn_row(i) == (#[trigger] rows[i as int]) as u32,
{
    assert(rows[0] == SYN0);
    assert(rows[1] == SYN1);
    assert(rows[2] == SYN2);
    assert(rows[3] == SYN3);
    assert(rows[4] == SYN4);
    assert(rows[5] == SYN5);
    assert(rows[6] == SYN6);
    assert(rows[7] == SYN7);
    assert(rows[8] == SYN8);
    assert(rows[9] == SYN9);
    assert(rows[10] == SYN10);
    assert(rows[11] == SYN11);
}

proof fn lemma_stage_parity(w: u32, s: u32)
    by (bit_vector)
    requires
        w < 0x800000,
        s == syndrome(w),
    ensures
        (w >> 11) < 4096,
        codeword(w >> 11) ^ w == 0u32 << 11 | s,
{
}

proof fn lemma_stage_data_bit(w: u32, s: u32, i: u32, d: u32)
    by (bit_vector)
    requires
        w < 0x800000,
        s == syndrome(w),
        i < 12,
        d == (w >> 11) ^ (1u32 << i),
    ensures
        d < 4096,
        codeword(d) ^ w == (1u32 << i) << 11 | (s ^ syn_row(i)),
{
}

proof fn lemma_stage_rotated(w: u32, t: u32, d: u32)
    by (bit_vector)
    requires
        w < 0x800000,
        t == syndrome(rotated(w)),
        d == (w >> 11) ^ t,
    ensures
        d < 4096,
        t < 0x800,
        codeword(d) ^ w == t << 11 | 0,
{
}

proof fn lemma_codeword_linear(a: u32, b: u32)
    by (bit_vector)
    requires
        a < 4096,
        b < 4096,
    ensures
        codeword(a ^ b) == codeword(a) ^ codeword(b),
        codeword(a) < 0x800000,
{
}

proof fn lemma_stage_rotated_msb(w: u32, t: u32, r: u32, d: u32)
    requires
        w < 0x800000,
        t == syndrome(rotated(w)),
        r == t ^ (SYN0 as u32),
        d == (w >> 11) ^ (r ^ 0x800),
    ensures
        d < 4096,
        codeword(d) ^ w == (r ^ 0x800) << 11 | 0,
{
    let d3 = (w >> 11) ^ t;
    let k: u32 = 0b110001110101;
    lemma_stage_rotated(w, t, d3);
    lemma_codeword_linear(d3, k);
    assert(codeword(0b110001110101u32) == 0b110001110101u32 << 11) by (bit_vector);
    let c3 = codeword(d3);
    let ck = codeword(k);
    let c = codeword(d3 ^ k);
    assert(d == d3 ^ k && d < 4096 && c ^ w == (r ^ 0x800) << 11 | 0) by (bit_vector)
        requires
            d3 == (w >> 11) ^ t,
            d3 < 4096,
            k == 0b110001110101u32,
            r == t ^ 0b10001110101u32,
            d == (w >> 11) ^ (r ^ 0x800),
            c == c3 ^ ck,
            c3 ^ w == t << 11 | 0,
            ck == k << 11,
    ;
}

proof fn lemma_stage_rotated_parity(w: u32, t: u32, i: u32, r: u32, d: u32)
    by (bit_vector)
    requires
        w < 0x800000,
        t == syndrome(rotated(w)),
        1 <= i < 12,
        r == t ^ syn_row(i),
        d == (w >> 11) ^ r,
    ensures
        d < 4096,
        codeword(d) ^ w == r << 11 | (1u32 << ((i - 1) as u32)),
{
}

proof fn lemma_codeword_syndromes(d: u32, c: u32, rc: u32)
    by (bit_vector)
    requires
        d < 4096,
        c == codeword(d),
        rc == rotated(c),
    ensures
        c < 0x800000,
        syndrome(c) == 0,
        syndrome(rc) == 0,
{
}

proof fn lemma_pattern(delta: u32, x: u32)
    by (bit_vector)
    requires
        delta < 4096,
        x < 0x800,
    ensures
        ones(delta << 11 | x) == ones(delta) + ones(x),
        ones(0u32) == 0,
{
}

proof fn lemma_unit_row(i: u32, s: u32)
    by (bit_vector)
    requires
        i < 12,
        s < 0x800,
    ensures
        1u32 << i < 4096,
        ones(1u32 << i) == 1,
        s ^ syn_row(i) < 0x800,
        syn_row(i) < 0x800,
        i >= 1 ==> ones(1u32 << ((i - 1) as u32)) == 1 && 1u32 << ((i - 1) as u32) < 0x800,
{
}

proof fn lemma_syndrome_linear(a: u32, b: u32)
    by (bit_vector)
    requires
        a < 0x800000,
        b < 0x800000,
    ensures
        syndrome(a ^ b) == syndrome(a) ^ syndrome(b),
        rotated(a ^ b) == rotated(a) ^ rotated(b),
        rotated(a) < 0x800000,
        rotated(b) < 0x800000,
        a ^ b < 0x800000,
{
}

/// The error pattern between a word and a codeword has the word's syndromes.
#[verifier::rlimit(100)]
proof fn lemma_error_syndromes(d: u32, w: u32)
    requires
        d < 4096,
        w < 0x800000,
    ensures
        codeword(d) ^ w < 0x800000,
        syndrome(codeword(d) ^ w) == syndrome(w),
        syndrome(rotated(codeword(d) ^ w)) == syndrome(rotated(w)),
{
    let c = codeword(d);
    lemma_codeword_syndromes(d, c, rotated(c));
    lemma_syndrome_linear(c, w);
    lemma_syndrome_linear(rotated(c), rotated(w));
    let x = syndrome(w);
    let y = syndrome(rotated(w));
    assert(0u32 ^ x == x && 0u32 ^ y == y) by (bit_vector);
}

proof fn lemma_rotated_parity_weight(r: u32, k: u32, e: u32, s: u32)
    by (bit_vector)
    requires
        r < 0x800,
        k < 11,
        e == r << 11 | (1u32 << k),
        s == syndrome(e),
        ones(r) <= 2,
        ones(s) > 3,
        !near_data_syndrome(s),
    ensures
        ones(r) == 2,
{
}

/// Of two codewords within three bits of one word, the data words are equal: the code's
/// minimum distance is seven.
#[verifier::rlimit(100)]
pub proof fn lemma_unique_within_three(d1: u32, d2: u32, w: u32)
    requires
        d1 < 4096,
        d2 < 4096,
        ones(codeword(d1) ^ w) <= 3,
        ones(codeword(d2) ^ w) <= 3,
    ensures
        d1 == d2,
{
    let c1 = codeword(d1);
    let c2 = codeword(d2);
    lemma_ones_xor_le(c1 ^ w, c2 ^ w);
    lemma_codeword_linear(d1, d2);
    let c = codeword(d1 ^ d2);
    assert((c1 ^ w) ^ (c2 ^ w) == c1 ^ c2) by (bit_vector);
    lemma_min_weight(d1 ^ d2, c);
    assert(d1 ^ d2 < 4096 && (d1 ^ d2 == 0 ==> d1 == d2)) by (bit_vector)
        requires
            d1 < 4096,
            d2 < 4096,
    ;
}

proof fn lemma_min_weight(d: u32, c: u32)
    by (bit_vector)
    requires
        c == codeword(d),
    ensures
        0 < d < 4096 ==> ones(c) >= 7,
{
}

proof fn lemma_all_stages_fail(e: u32, s: u32, t: u32)
    by (bit_vector)
    requires
        e < 0x800000,
        s == syndrome(e),
        t == syndrome(rotated(e)),
        ones(s) > 3,
        !near_data_syndrome(s),
        ones(t) > 3,
        !near_data_syndrome(t),
        !near_msb_pair(t),
    ensures
        ones(e) > 3,
{
}

proof fn lemma_not_near_msb_pair(t: u32, rows: Seq<u16>)
    requires
        rows == seq![SYN0, SYN1, SYN2, SYN3, SYN4, SYN5, SYN6, SYN7, SYN8, SYN9, SYN10, SYN11],
        forall|j: int| 1 <= j < 12 ==> ones(t ^ rows[0] as u32 ^ (#[trigger] rows[j]) as u32) != 1,
    ensures
        !near_msb_pair(t),
{
    assert(ones(t ^ rows[0] as u32 ^ rows[1] as u32) != 1);
    assert(ones(t ^ rows[0] as u32 ^ rows[2] as u32) != 1);
    assert(ones(t ^ rows[0] as u32 ^ rows[3] as u32) != 1);
    assert(ones(t ^ rows[0] as u32 ^ rows[4] as u32) != 1);
    assert(ones(t ^ rows[0] as u32 ^ rows[5] as u32) != 1);
    assert(ones(t ^ rows[0] as u32 ^ rows[6] as u32) != 1);
    assert(ones(t ^ rows[0] as u32 ^ rows[7] as u32) != 1);
    assert(ones(t ^ rows[0] as u32 ^ rows[8] as u32) != 1);
    assert(ones(t ^ rows[0] as u32 ^ rows[9] as u32) != 1);
    assert(ones(t ^ rows[0] as u32 ^ rows[10] as u32) != 1);
    assert(ones(t ^ rows[0] as u32 ^ rows[11] as u32) != 1);
}

proof fn lemma_stage_msb_parity(w: u32, t: u32, i: u32, r: u32, d: u32)
    requires
        w < 0x800000,
        t == syndrome(rotated(w)),
        t < 0x800,
        1 <= i < 12,
        r == t ^ (SYN0 as u32) ^ syn_row(i),
        ones(r) == 1,
        d == (w >> 11) ^ (r ^ 0x800),
    ensures
        d < 4096,
        ones(codeword(d) ^ w) == 3,
{
    let y = syn_row(i);
    let r1 = t ^ y;
    let d1 = (w >> 11) ^ r1;
    let k: u32 = 0b110001110101;
    let b = 1u32 << ((i - 1) as u32);
    lemma_stage_rotated_parity(w, t, i, r1, d1);
    lemma_unit_row(i, t);
    lemma_codeword_linear(d1, k);
    assert(codeword(0b110001110101u32) == 0b110001110101u32 << 11) by (bit_vector);
    let c1 = codeword(d1);
    let ck = codeword(k);
    let c = codeword(d1 ^ k);
    assert(d == d1 ^ k && d < 4096 && ones(c ^ w) == 3) by (bit_vector)
        requires
            d1 == (w >> 11) ^ r1,
            d1 < 4096,
            r1 == t ^ y,
            k == 0b110001110101u32,
            r == t ^ 0b10001110101u32 ^ y,
            ones(r) == 1,
            t < 0x800,
            y < 0x800,
            d == (w >> 11) ^ (r ^ 0x800),
            c == c1 ^ ck,
            c1 ^ w == r1 << 11 | b,
            ck == k << 11,
            ones(b) == 1,
            b < 0x800,
    ;
}

/// Some stage of the cascade reaches each word made of parity bits alone; as every word
/// shares its syndromes with one of these, the cascade reaches every word.
proof fn lemma_cascade_total(x: u32, s: u32, t: u32)
    by (bit_vector)
    requires
        x < 0x800,
        s == syndrome(x),
        t == syndrome(rotated(x)),
        ones(s) > 3,
        !near_data_syndrome(s),
        ones(t) > 3,
        !near_data_syndrome(t),
        !near_msb_pair(t),
    ensures
        x >= 0x800,
{
}

proof fn lemma_not_near(s: u32, rows: Seq<u16>)
    requires
        rows == seq![SYN0, SYN1, SYN2, SYN3, SYN4, SYN5, SYN6, SYN7, SYN8, SYN9, SYN10, SYN11],
        forall|j: int| 0 <= j < 12 ==> ones(s ^ (#[trigger] rows[j]) as u32) > 2,
    ensures
        !near_data_syndrome(s),
{
    assert(ones(s ^ rows[0] as u32) > 2);
    assert(ones(s ^ rows[1] as u32) > 2);
    assert(ones(s ^ rows[2] as u32) > 2);
    assert(ones(s ^ rows[3] as u32) > 2);
    assert(ones(s ^ rows[4] as u32) > 2);
    assert(ones(s ^ rows[5] as u32) > 2);
    assert(ones(s ^ rows[6] as u32) > 2);
    assert(ones(s ^ rows[7] as u32) > 2);
    assert(ones(s ^ rows[8] as u32) > 2);
    assert(ones(s ^ rows[9] as u32) > 2);
    assert(ones(s ^ rows[10] as u32) > 2);
    assert(ones(s ^ rows[11] as u32) > 2);
}

/// Circularly shift the given 23-bit word right by 11 bits.
pub fn rotate_11(word: u32) -> (r: u32)
    ensures
        r == rotated(word),
{
    let parity = word & 0x7FF;
    word >> 11 | parity << 12
}

/// Encode the given 12 data bits into a 23-bit codeword.
pub fn encode(data: u16) -> (r: u32)
    requires
        data < 4096,
    ensures
        r == codeword(data as u32),
{
    let xpose: [u16; 11] = [XPOSE0, XPOSE1, XPOSE2, XPOSE3, XPOSE4, XPOSE5, XPOSE6, XPOSE7, XPOSE8, XPOSE9, XPOSE10];
    let rows: &[u16] = &xpose;
    let r = matrix_mul_systematic(data, rows);
    proof {
        lemma_codeword_of(data, r, rows@);
    }
    r
}


/// Decode the given 23-bit word to the nearest codeword, correcting up to 3 errors.
///
/// This returns `Some((data, err))`, where `data` is the 12 data bits and `err` is the
/// number of corrected bits. The code is perfect: every word lies within three bits of a
/// codeword, so the result is never `None`.
#[verifier::rlimit(100)]
pub fn decode(word: u32) -> (r: Option<(u16, usize)>)
    requires
        word < 0x800000,
    ensures
        r is Some,
        decodes_to(word, r),
{
    let data: u32 = word >> 11;
    let par: [u32; 11] = [PAR0, PAR1, PAR2, PAR3, PAR4, PAR5, PAR6, PAR7, PAR8, PAR9, PAR10];
    let rows: &[u32] = &par;
    let syn: [u16; 12] = [SYN0, SYN1, SYN2, SYN3, SYN4, SYN5, SYN6, SYN7, SYN8, SYN9, SYN10, SYN11];
    proof {
        lemma_syn_rows(syn@);
    }

    // Errors isolated to the parity bits.
    let s: u16 = matrix_mul(word, rows);
    proof {
        lemma_syndrome_of(word, s, rows@);
    }
    let s: u32 = s as u32;
    let n = count_ones(s);
    if n <= 3 {
        proof {
            lemma_stage_parity(word, s);
            lemma_pattern(0, s);
        }
        return Some((data as u16, n as usize));
    }

    // One error in the data bits, and up to two in the parity bits.
    let mut i: usize = 0;
    while i < 12
        invariant
            i <= 12,
            syn@ == seq![SYN0, SYN1, SYN2, SYN3, SYN4, SYN5, SYN6, SYN7, SYN8, SYN9, SYN10, SYN11],
            forall|j: int| 0 <= j < i ==> ones(s ^ (#[trigger] syn@[j]) as u32) > 2,
            word < 0x800000,
            data == word >> 11,
            s == syndrome(word),
            s < 0x800,
        decreases 12 - i,
    {
        let x: u32 = s ^ (syn[i] as u32);
        let n = count_ones(x);
        if n <= 2 {
            let d: u32 = data ^ (1u32 << (i as u32));
            proof {
                lemma_stage_data_bit(word, s, i as u32, d);
                lemma_unit_row(i as u32, s);
                lemma_pattern(1u32 << (i as u32), x);
            }
            return Some((d as u16, (n + 1) as usize));
        }
        i += 1;
    }
    proof {
        lemma_not_near(s, syn@);
    }

    // Two or three errors in the data bits other than the data MSB.
    let t: u16 = matrix_mul(rotate_11(word), rows);
    proof {
        lemma_syndrome_of(rotated(word), t, rows@);
    }
    let t: u32 = t as u32;
    let n = count_ones(t);
    if n <= 3 {
        let d: u32 = data ^ t;
        proof {
            lemma_stage_rotated(word, t, d);
            lemma_pattern(t, 0);
        }
        return Some((d as u16, n as usize));
    }

    // Errors that include the data MSB, or two data errors and one parity error.
    let mut i: usize = 0;
    while i < 12
        invariant
            i <= 12,
            syn@ == seq![SYN0, SYN1, SYN2, SYN3, SYN4, SYN5, SYN6, SYN7, SYN8, SYN9, SYN10, SYN11],
            forall|j: int| 0 <= j < i ==> ones(t ^ (#[trigger] syn@[j]) as u32) > 2,
            word < 0x800000,
            data == word >> 11,
            s == syndrome(word),
            ones(s) > 3,
            !near_data_syndrome(s),
            t == syndrome(rotated(word)),
            t < 0x800,
            ones(t) > 3,
        decreases 12 - i,
    {
        let r: u32 = t ^ (syn[i] as u32);
        let n = count_ones(r);
        if n <= 2 {
            if i == 0 {
                let d: u32 = data ^ (r ^ 0x800);
                proof {
                    lemma_stage_rotated_msb(word, t, r, d);
                    lemma_unit_row(0, t);
                    assert(r < 0x800 ==> (r ^ 0x800) < 4096 && ones(r ^ 0x800) == ones(r) + 1)
                        by (bit_vector);
                    lemma_pattern(r ^ 0x800, 0);
                }
                return Some((d as u16, (n + 1) as usize));
            } else {
                let d: u32 = data ^ r;
                proof {
                    let k = (i - 1) as u32;
                    lemma_stage_rotated_parity(word, t, i as u32, r, d);
                    lemma_unit_row(i as u32, t);
                    lemma_pattern(r, 1u32 << k);
                    lemma_error_syndromes(d, word);
                    lemma_rotated_parity_weight(r, k, codeword(d) ^ word, s);
                }
                return Some((d as u16, 3));
            }
        }
        i += 1;
    }
    proof {
        lemma_not_near(t, syn@);
    }

    // The data MSB, one other data bit and one parity bit.
    let mut i: usize = 1;
    while i < 12
        invariant
            1 <= i <= 12,
            syn@ == seq![SYN0, SYN1, SYN2, SYN3, SYN4, SYN5, SYN6, SYN7, SYN8, SYN9, SYN10, SYN11],
            forall|j: int| 1 <= j < i ==> ones(t ^ syn@[0] as u32 ^ (#[trigger] syn@[j]) as u32) != 1,
            word < 0x800000,
            data == word >> 11,
            s == syndrome(word),
            ones(s) > 3,
            !near_data_syndrome(s),
            t == syndrome(rotated(word)),
            t < 0x800,
            ones(t) > 3,
            !near_data_syndrome(t),
        decreases 12 - i,
    {
        let r: u32 = t ^ (syn[0] as u32) ^ (syn[i] as u32);
        if count_ones(r) == 1 {
            let d: u32 = data ^ (r ^ 0x800);
            proof {
                lemma_stage_msb_parity(word, t, i as u32, r, d);
            }
            return Some((d as u16, 3));
        }
        i += 1;
    }
    proof {
        lemma_not_near_msb_pair(t, syn@);
        let d0 = word >> 11;
        lemma_stage_parity(word, s);
        assert(0u32 << 11 | s == s) by (bit_vector);
        lemma_error_syndromes(d0, word);
        lemma_cascade_total(s, s, t);
        assert forall|d: u32| d < 4096 implies ones(#[trigger] codeword(d) ^ word) > 3 by {
            lemma_error_syndromes(d, word);
            lemma_all_stages_fail(codeword(d) ^ word, s, t);
        }
    }
    None
}


/// Decoding the codeword of any data word gives back that data word, with no bit
/// corrected.
pub proof fn lemma_round_trip(d: u32, r: Option<(u16, usize)>)
    requires
        d < 4096,
        decodes_to(codeword(d), r),
    ensures
        r == Some((d as u16, 0usize)),
{
    let c = codeword(d);
    assert(c ^ c == 0 && ones(0u32) == 0) by (bit_vector);
    match r {
        Some((d2, n)) => {
            lemma_unique_within_three(d2 as u32, d, c);
        },
        None => {
            assert(ones(codeword(d) ^ c) > 3);
        },
    }
}

/// Flipping up to three bits of a codeword decodes to the original data with the number
/// of flipped bits.
pub proof fn lemma_corrects_up_to_three(d: u32, e: u32, r: Option<(u16, usize)>)
    requires
        d < 4096,
        e < 0x800000,
        ones(e) <= 3,
        decodes_to(codeword(d) ^ e, r),
    ensures
        r == Some((d as u16, ones(e) as usize)),
{
    let c = codeword(d);
    let w = c ^ e;
    assert(c ^ (c ^ e) == e) by (bit_vector);
    match r {
        Some((d2, n)) => {
            lemma_unique_within_three(d2 as u32, d, w);
        },
        None => {
            assert(ones(codeword(d) ^ w) > 3);
        },
    }
}

/// The outcome of decoding is determined by the word alone: in particular a word found
/// uncorrectable is found so on every decoding.
pub proof fn lemma_decoding_determined(w: u32, r1: Option<(u16, usize)>, r2: Option<(u16, usize)>)
    requires
        decodes_to(w, r1),
        decodes_to(w, r2),
    ensures
        r1 == r2,
{
    match r1 {
        Some((d1, n1)) => {
            match r2 {
                Some((d2, n2)) => {
                    lemma_unique_within_three(d1 as u32, d2 as u32, w);
                },
                None => {
                    assert(ones(codeword(d1 as u32) ^ w) > 3);
                },
            }
        },
        None => {
            if let Some((d2, n2)) = r2 {
                assert(ones(codeword(d2 as u32) ^ w) > 3);
            }
        },
    }
}

} // verus!
