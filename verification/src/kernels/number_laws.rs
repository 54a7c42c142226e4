//! What the numbers of the kernels mean: how they are packed, cut off, ordered and read back.
use vstd::arithmetic::power2::{lemma2_to64, lemma_pow2_adds, pow2};
use vstd::prelude::*;

use crate::bytes::le_nat;
use crate::kernels::float::{gt, is_nan, key};
use crate::kernels::fp8::{magnitude, patterns_order_numbers};
use crate::kernels::indexer::{better, visible};
use crate::kernels::moe::{expert_of, hashed_experts, weights_of};
use crate::kernels::quantize::{
    clamped8, digit, digit_bound, iq2_factor, iq2_pattern, iq2_sign, ones, patterned,
    q2k_offset_term, q2k_term, q2k_value, q8_0_block_at, q8_0_numbers, q8k_sum, q8k_value, signed16,
    signed8, total, unpacked,
};
use crate::kernels::reduce::{abs_bits, larger, Peak};
use crate::kernels::utils::{narrowed, rounded, widened};

verus! {

/// Widening keeps a number and its sign: a 16-bit number counts units of `2^-24`, a 32-bit one
/// units of `2^-149`. Numbers too small to have a leading one become zero.
pub proof fn widening_keeps_numbers(h: u16)
    ensures
        (widened(h) >= 0x8000_0000) == (h >= 0x8000),
        1 <= (h / 0x400) % 32 <= 30 ==> magnitude(widened(h) as int % 0x8000_0000) == ((0x400 + h
            % 0x400) as nat * pow2(((h / 0x400) % 32 - 1) as nat)) * pow2(125),
        (h / 0x400) % 32 == 0 ==> widened(h) as int % 0x8000_0000 == 0,
        h % 0x8000 == 0x7C00 ==> widened(h) as int % 0x8000_0000 == 0x7F80_0000,
        h % 0x8000 > 0x7C00 <==> is_nan(widened(h)),
{
    let e = ((h / 0x400) % 32) as int;
    let m = (h % 0x400) as int;
    assert(h == (h / 0x8000) * 0x8000 + e * 0x400 + m);
    if 1 <= e <= 30 {
        let b = widened(h) as int % 0x8000_0000;
        assert(b == (e + 112) * 0x80_0000 + m * 0x2000);
        assert(b / 0x80_0000 == e + 112);
        assert(b % 0x80_0000 == m * 0x2000);
        lemma2_to64();
        lemma_pow2_adds(13, (e + 111) as nat);
        lemma_pow2_adds((e - 1) as nat, 125);
        let p = pow2((e + 111) as nat) as int;
        let q = pow2((e - 1) as nat) as int;
        let r = pow2(125) as int;
        assert((0x80_0000 + m * 0x2000) * p == (0x400 + m) * (0x2000 * p)) by (nonlinear_arith);
        assert((0x400 + m) * (q * r) == ((0x400 + m) * q) * r) by (nonlinear_arith);
    }
}

/// Rounding to 16 bits and back cuts off the last thirteen bits. What has a smaller exponent than
/// any 16-bit number becomes zero, and what has a larger one infinity; signs stay.
pub proof fn rounding_cuts_off(b: u32)
    ensures
        (rounded(b) >= 0x8000_0000) == (b >= 0x8000_0000),
        113 <= (b / 0x80_0000) % 256 <= 142 ==> rounded(b) == b - b % 0x2000,
        (b / 0x80_0000) % 256 < 113 ==> rounded(b) as int % 0x8000_0000 == 0,
        (b / 0x80_0000) % 256 > 142 ==> rounded(b) as int % 0x8000_0000 == 0x7F80_0000,
{
    let h = narrowed(b);
    let s = (b / 0x8000_0000) as int;
    let e = ((b / 0x80_0000) % 256) as int;
    let m = ((b / 0x2000) % 0x400) as int;
    assert(b == s * 0x8000_0000 + e * 0x80_0000 + m * 0x2000 + b % 0x2000);
    if e < 113 {
        assert(h == s * 0x8000);
        assert(h / 0x8000 == s && (h / 0x400) % 32 == 0);
    } else if e > 142 {
        assert(h == s * 0x8000 + 0x7C00);
        assert(h / 0x8000 == s && (h / 0x400) % 32 == 31 && h % 0x400 == 0);
    } else {
        assert(h == s * 0x8000 + (e - 112) * 0x400 + m);
        assert(h / 0x8000 == s);
        assert((h / 0x400) % 32 == e - 112);
        assert(h % 0x400 == m);
    }
}

/// The lowest digit comes first; each further digit is one of what is left.
pub proof fn digits_come_lowest_first(a: nat, rest: nat, base: nat, k: nat)
    requires
        a < base,
    ensures
        digit(a + base * rest, base, 0) == a,
        digit(a + base * rest, base, k + 1) == digit(rest, base, k),
{
    let v = a + base * rest;
    assert(base * rest == rest * base) by (nonlinear_arith);
    vstd::arithmetic::div_mod::lemma_fundamental_div_mod_converse(
        v as int,
        base as int,
        rest as int,
        a as int,
    );
    assert((k + 1 - 1) as nat == k);
}

/// A byte stands for the signed number that is congruent to it; so do two bytes.
pub proof fn signed_numbers_are_congruent(b: int, v: int)
    requires
        0 <= b < 256,
        0 <= v < 0x1_0000,
    ensures
        -128 <= signed8(b) < 128,
        signed8(b) == b || signed8(b) + 256 == b,
        -0x8000 <= signed16(v) < 0x8000,
        signed16(v) == v || signed16(v) + 0x1_0000 == v,
{
}

/// A byte of two-bit values holds four of them, 32 apart in the half that they belong to.
pub proof fn two_bit_values_read_back(
    blk: Seq<u8>,
    half: int,
    l: int,
    v0: nat,
    v1: nat,
    v2: nat,
    v3: nat,
)
    requires
        0 <= half < 2,
        0 <= l < 32,
        v0 < 4,
        v1 < 4,
        v2 < 4,
        v3 < 4,
        blk[16 + 32 * half + l] == v0 + 4 * v1 + 16 * v2 + 64 * v3,
    ensures
        q2k_value(blk, 128 * half + l) == v0,
        q2k_value(blk, 128 * half + 32 + l) == v1,
        q2k_value(blk, 128 * half + 64 + l) == v2,
        q2k_value(blk, 128 * half + 96 + l) == v3,
{
    let b = blk[16 + 32 * half + l] as nat;
    four_digits(b, v0, v1, v2, v3);
    let i = 128 * half + l;
    assert(i / 128 == half && i % 32 == l && (i % 128) / 32 == 0);
    assert((i + 32) / 128 == half && (i + 32) % 32 == l && ((i + 32) % 128) / 32 == 1);
    assert((i + 64) / 128 == half && (i + 64) % 32 == l && ((i + 64) % 128) / 32 == 2);
    assert((i + 96) / 128 == half && (i + 96) % 32 == l && ((i + 96) % 128) / 32 == 3);
}

proof fn four_digits(b: nat, v0: nat, v1: nat, v2: nat, v3: nat)
    requires
        v0 < 4,
        v1 < 4,
        v2 < 4,
        v3 < 4,
        b == v0 + 4 * v1 + 16 * v2 + 64 * v3,
    ensures
        digit(b, 4, 0) == v0,
        digit(b, 4, 1) == v1,
        digit(b, 4, 2) == v2,
        digit(b, 4, 3) == v3,
{
    digits_come_lowest_first(v0, v1 + 4 * (v2 + 4 * v3), 4, 0);
    digits_come_lowest_first(v0, v1 + 4 * (v2 + 4 * v3), 4, 1);
    digits_come_lowest_first(v0, v1 + 4 * (v2 + 4 * v3), 4, 2);
    digits_come_lowest_first(v1, v2 + 4 * v3, 4, 0);
    digits_come_lowest_first(v1, v2 + 4 * v3, 4, 1);
    digits_come_lowest_first(v2, v3, 4, 0);
    assert(b == v0 + 4 * (v1 + 4 * (v2 + 4 * v3)));
    assert(digit(v3, 4, 0) == v3);
}

/// One pattern is greater than another where its number is: without signs the larger number, with
/// two signs the smaller, and else the one without a sign unless both are zero.
pub proof fn patterns_compare_as_numbers(a: u32, b: u32)
    requires
        !is_nan(a),
        !is_nan(b),
    ensures
        ({
            let x = magnitude(a as int % 0x8000_0000);
            let y = magnitude(b as int % 0x8000_0000);
            gt(a, b) == if a < 0x8000_0000 && b < 0x8000_0000 {
                x > y
            } else if a >= 0x8000_0000 && b >= 0x8000_0000 {
                x < y
            } else {
                a < 0x8000_0000 && (x > 0 || y > 0)
            }
        }),
{
    let m = a as int % 0x8000_0000;
    let n = b as int % 0x8000_0000;
    if m < n {
        patterns_order_numbers(m, n);
    } else if n < m {
        patterns_order_numbers(n, m);
    }
    if m > 0 {
        patterns_order_numbers(0, m);
    }
    if n > 0 {
        patterns_order_numbers(0, n);
    }
    assert(magnitude(0) == 0);
}

/// A scale byte of two-bit values holds the factor of its sixteen values in its lower half and
/// that of their sum in its upper half.
pub proof fn scale_bytes_hold_two_factors(
    blk: Seq<u8>,
    q8k: Seq<u8>,
    j: int,
    k: int,
    s: int,
    m: int,
)
    requires
        0 <= j < 16,
        0 <= k < 16,
        0 <= s < 16,
        0 <= m < 16,
        blk[j] == s + 16 * m,
    ensures
        q2k_term(blk, q8k)(16 * j + k) == s * (q2k_value(blk, 16 * j + k) * q8k_value(
            q8k,
            16 * j + k,
        )),
        q2k_offset_term(blk, q8k)(j) == q8k_sum(q8k, j) * m,
{
    assert((16 * j + k) / 16 == j);
}

/// Each group of 32 two-bit weights has four codes, four sign words of seven bits and a factor:
/// eight weights of it come from one code and one sign word.
pub proof fn groups_read_back(
    blk: Seq<u8>,
    grid: Seq<u64>,
    signs: Seq<u8>,
    g: int,
    s: Seq<nat>,
    factor: nat,
    j: int,
    k: int,
)
    requires
        0 <= g < 8,
        0 <= j < 4,
        0 <= k < 8,
        s.len() == 4,
        s[0] < 128,
        s[1] < 128,
        s[2] < 128,
        s[3] < 128,
        factor < 16,
        le_nat(blk, 2 + 8 * g + 4, 4) == s[0] + 128 * s[1] + 16384 * s[2] + 2097152 * s[3]
            + 268435456 * factor,
    ensures
        iq2_pattern(blk, grid, 32 * g + 8 * j + k) == grid[blk[2 + 8 * g + j] as int],
        iq2_sign(blk, signs, 32 * g + 8 * j + k) == signs[s[j] as int],
        iq2_factor(blk, 32 * g + 8 * j + k) == 2 * factor + 1,
{
    reveal_with_fuel(digit, 4);
    let i = 32 * g + 8 * j + k;
    assert(i / 32 == g && (i % 32) / 8 == j);
    let v = le_nat(blk, 2 + 8 * g + 4, 4);
    assert(v % 128 == s[0]);
    assert(v / 128 == s[1] + 128 * s[2] + 16384 * s[3] + 2097152 * factor);
    assert((v / 128) % 128 == s[1]);
    assert(v / 128 / 128 == s[2] + 128 * s[3] + 16384 * factor);
    assert((v / 128 / 128) % 128 == s[2]);
    assert(v / 128 / 128 / 128 == s[3] + 128 * factor);
    assert((v / 128 / 128 / 128) % 128 == s[3]);
    assert(v as int / 0x1000_0000 == factor);
}

/// A weight of a pattern is its byte, negated where its sign bit is set. Without sign bits no
/// weight is negated, with all of them every weight is.
pub proof fn sign_bits_negate(grid: u64, sign: u8, k: int)
    requires
        0 <= k < 8,
    ensures
        ({
            let byte = signed8(digit(grid as nat, 256, k as nat) as int);
            let bit = digit(unpacked(sign) as nat, 2, k as nat);
            &&& patterned(grid, sign, k) == byte * (1 - 2 * bit)
            &&& patterned(grid, 0, k) == byte
            &&& patterned(grid, 255, k) == -byte
        }),
{
    let bit = digit(unpacked(sign) as nat, 2, k as nat);
    digit_bound(unpacked(sign) as nat, 2, k as nat);
    assert(bit == 0 || bit == 1);
    reveal_with_fuel(digit, 9);
    reveal_with_fuel(total, 9);
    assert(ones(0) == 0);
    assert(ones(255) == 8);
    assert(k == 0 || k == 1 || k == 2 || k == 3 || k == 4 || k == 5 || k == 6 || k == 7);
    assert(digit(0, 2, k as nat) == 0);
    assert(digit(255, 2, k as nat) == 1);
    let byte = signed8(digit(grid as nat, 256, k as nat) as int);
    assert(byte * 1 == byte && byte * (1 - 2) == -byte);
}

/// Quantised numbers are the nearest that fit in a byte: those that fit stay. A block is filled up
/// with zeros.
pub proof fn clamping_keeps_what_fits(v: i32, rounded: Seq<i32>, i: int)
    requires
        0 <= i < 32,
    ensures
        -128 <= v <= 127 ==> clamped8(v) == v,
        v > 127 ==> clamped8(v) == 127,
        v < -128 ==> clamped8(v) == -128,
        q8_0_numbers(rounded).len() == 32,
        i < rounded.len() && -128 <= rounded[i] <= 127 ==> q8_0_numbers(rounded)[i] == rounded[i],
        i >= rounded.len() ==> q8_0_numbers(rounded)[i] == 0,
{
}

/// Number `i` of row `r` lies in block `i / 32` of the row; a block takes 34 bytes.
pub proof fn numbers_lie_in_their_block(r: int, i: int, in_dim: int, blocks: int)
    requires
        0 <= r,
        0 <= i < in_dim,
    ensures
        q8_0_block_at(r * in_dim + i, in_dim, blocks) == 34 * (r * blocks + i / 32),
{
    vstd::arithmetic::div_mod::lemma_fundamental_div_mod_converse(r * in_dim + i, in_dim, r, i);
}

/// The size of a number has its bits but for the sign, and is never negative.
pub proof fn sizes_have_no_sign(v: u32)
    requires
        !is_nan(v),
    ensures
        key(abs_bits(v)) == if key(v) < 0 {
            -key(v)
        } else {
            key(v)
        },
        !is_nan(abs_bits(v)),
{
}

/// Of two peaks the larger is kept; of equal ones the later or the earlier, as asked.
pub proof fn larger_peaks_are_kept(a: Peak, b: Peak, late: bool)
    requires
        !is_nan(a.abs),
        !is_nan(b.abs),
    ensures
        key(a.abs) > key(b.abs) ==> larger(a, b, late) == a,
        key(a.abs) < key(b.abs) ==> larger(a, b, late) == b,
        key(a.abs) == key(b.abs) ==> larger(a, b, late) == if late {
            b
        } else {
            a
        },
{
}

/// A higher score comes first, whatever its row; of equal scores the lower row does.
pub proof fn higher_scores_come_first(av: u32, ai: u32, bv: u32, bi: u32)
    requires
        !is_nan(av),
        !is_nan(bv),
    ensures
        key(av) > key(bv) ==> better(av, ai, bv, bi) && !better(bv, bi, av, ai),
        better(av, ai, av, bi) == (ai < bi),
        gt(av, bv) ==> better(av, ai, bv, bi),
{
}

/// A row is visible where all of its tokens have come: row `c` is made of the tokens from
/// `c * ratio` on to `(c + 1) * ratio - 1`.
pub proof fn rows_are_visible_when_complete(c: int, pos: int, ratio: int)
    requires
        0 <= pos,
        0 <= c,
        0 < ratio,
    ensures
        c < visible(pos, ratio) <==> (c + 1) * ratio - 1 <= pos,
{
    let q = visible(pos, ratio);
    vstd::arithmetic::div_mod::lemma_fundamental_div_mod(pos + 1, ratio);
    assert(q * ratio <= pos + 1 < q * ratio + ratio) by (nonlinear_arith)
        requires
            pos + 1 == ratio * q + (pos + 1) % ratio,
            0 <= (pos + 1) % ratio < ratio,
    ;
    if c < q {
        assert((c + 1) * ratio <= q * ratio) by (nonlinear_arith)
            requires
                c + 1 <= q,
                ratio > 0,
        ;
    } else {
        assert((c + 1) * ratio >= q * ratio + ratio) by (nonlinear_arith)
            requires
                c + 1 >= q + 1,
                ratio > 0,
        ;
    }
}

/// A token that has a row in the table of experts gets the six of its row, and any other token
/// those of the first row.
pub proof fn tokens_have_their_experts(
    hash: Seq<i32>,
    tokens: Seq<i32>,
    t: int,
    scalar: i32,
    hash_rows: int,
    i: int,
)
    requires
        0 < hash_rows,
        6 * hash_rows <= hash.len(),
        tokens.len() == 0 || 0 <= t < tokens.len(),
        0 <= i < 6,
    ensures
        ({
            let token = if tokens.len() == 0 {
                scalar
            } else {
                tokens[t]
            };
            let experts = hashed_experts(hash, tokens, t, scalar, hash_rows);
            &&& experts.len() == 6
            &&& 0 <= token < hash_rows ==> experts[i] == hash[6 * token + i]
            &&& token < 0 || token >= hash_rows ==> experts[i] == hash[i]
        }),
{
}

/// A chosen expert has its own probability as its weight; a place without an expert has none, and
/// counts as the first expert with weight zero.
pub proof fn experts_have_their_weights(probs: Seq<u32>, selected: Seq<i32>, i: int)
    requires
        0 <= i < selected.len(),
    ensures
        weights_of(probs, selected).len() == selected.len(),
        0 <= selected[i] < 256 ==> {
            &&& weights_of(probs, selected)[i] == probs[selected[i] as int]
            &&& expert_of(selected[i]) == selected[i]
        },
        selected[i] == -1 ==> weights_of(probs, selected)[i] == 0 && expert_of(selected[i]) == 0,
{
}

} // verus!
