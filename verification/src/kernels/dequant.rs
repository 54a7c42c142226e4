//! One-byte weights as floating-point numbers.
use vstd::arithmetic::power2::{lemma2_to64, lemma_pow2_adds, pow2};
use vstd::prelude::*;

use crate::bytes::le_nat;
use crate::kernels::float::{float_is_nan, is_nan, POS_INF};
use crate::kernels::fp8::{magnitude, patterns_order_numbers};
use crate::kernels::quantize::{q8_0_block_at, q8_0_weight, signed8};
use crate::kernels::utils::{f32_to_f16_bits, narrowed, widened};

verus! {

/// A pattern without its sign bit.
pub open spec fn unsigned(b: u32) -> int {
    b as int % 0x8000_0000
}

/// The size of a whole number.
pub open spec fn size_of_int(q: int) -> nat {
    if q < 0 {
        -q as nat
    } else {
        q as nat
    }
}

/// `r` is the pattern of the exact product of a number and a whole number. Not a number is what
/// has no value: any product of what is not a number, and infinity times zero.
pub open spec fn is_product(r: u32, s: u32, q: int) -> bool {
    if is_nan(s) || (unsigned(s) == POS_INF && q == 0) {
        is_nan(r)
    } else {
        &&& (r >= 0x8000_0000) == ((s >= 0x8000_0000) != (q < 0))
        &&& if unsigned(s) == POS_INF {
            unsigned(r) == POS_INF
        } else {
            &&& unsigned(r) < POS_INF
            &&& magnitude(unsigned(r)) == magnitude(unsigned(s)) * size_of_int(q)
        }
    }
}

/// Two patterns of one product are the same, unless they are not numbers.
pub proof fn products_are_unique(a: u32, b: u32, s: u32, q: int)
    requires
        is_product(a, s, q),
        is_product(b, s, q),
    ensures
        a == b || (is_nan(a) && is_nan(b)),
{
    patterns_order_numbers(unsigned(a), unsigned(b));
    patterns_order_numbers(unsigned(b), unsigned(a));
}

/// Doubling a fraction and lowering its exponent keeps the size.
proof fn shifting_keeps_the_size(p: nat, e: nat)
    requires
        e >= 2,
    ensures
        (2 * p) * pow2((e - 2) as nat) == p * pow2((e - 1) as nat),
{
    lemma_pow2_adds(1, (e - 2) as nat);
    lemma2_to64();
    let x = pow2((e - 2) as nat);
    assert(pow2((e - 1) as nat) == 2 * x);
    assert((2 * p) * x == p * (2 * x)) by (nonlinear_arith);
}

/// The product of a 16-bit number, given with 32 bits, and a byte. It is exact: eleven bits times
/// eight fit.
fn scaled(Ghost(h): Ghost<u16>, s: u32, q: i32) -> (r: u32)
    requires
        s == widened(h),
        -128 <= q <= 127,
    ensures
        is_product(r, s, q as int),
{
    let sign: u32 = if (s >= 0x8000_0000) != (q < 0) {
        0x8000_0000
    } else {
        0
    };
    let m: u32 = s % 0x8000_0000;
    if float_is_nan(s) || (m == POS_INF && q == 0) {
        return 0x7FFF_FFFF;
    }
    if m == POS_INF {
        return sign + POS_INF;
    }
    if m == 0 || q == 0 {
        proof {
            assert(magnitude(0) == 0);
            assert(magnitude(unsigned(s)) * 0 == 0) by (nonlinear_arith);
            assert(0 * size_of_int(q as int) == 0) by (nonlinear_arith);
        }
        return sign;
    }
    let exp: u32 = m / 0x80_0000;
    let frac: u32 = m % 0x80_0000;
    let f: u32 = (0x80_0000 + frac) / 0x2000;
    let a: u32 = if q < 0 {
        (-q) as u32
    } else {
        q as u32
    };
    assert(113 <= exp <= 142 && (0x80_0000 + frac) == f * 0x2000 && 1024 <= f < 2048);
    assert(1024 <= f * a <= 2047 * 128) by (nonlinear_arith)
        requires
            1024 <= f < 2048,
            1 <= a <= 128,
    ;
    let mut p: u32 = f * a;
    let mut e: u32 = exp + 13;
    let ghost whole = magnitude(unsigned(s)) * size_of_int(q as int);
    proof {
        let x = pow2((exp - 1) as nat);
        lemma_pow2_adds(13, (exp - 1) as nat);
        lemma2_to64();
        assert(pow2((e - 1) as nat) == 0x2000 * x);
        assert((f * a) * (0x2000 * x) == ((f * 0x2000) * x) * a) by (nonlinear_arith);
    }
    let ghost mut k: nat = 0;
    while p < 0x80_0000
        invariant
            k <= 13,
            e == exp + 13 - k,
            113 <= exp <= 142,
            1024 * pow2(k) <= p < 0x100_0000,
            p * pow2((e - 1) as nat) == whole,
        decreases e,
    {
        proof {
            lemma2_to64();
            lemma_pow2_adds(1, k);
            shifting_keeps_the_size(p as nat, e as nat);
            k = k + 1;
        }
        p = 2 * p;
        e = e - 1;
    }
    proof {
        let b = e * 0x80_0000 + (p - 0x80_0000);
        assert(b / 0x80_0000 == e && b % 0x80_0000 == p - 0x80_0000);
        assert(magnitude(b) == whole);
    }
    let b: u32 = e * 0x80_0000 + (p - 0x80_0000);
    assert(unsigned((sign + b) as u32) == b);
    sign + b
}

/// Element `gid` of a matrix of one-byte weights: its number times the scale of its block.
pub fn dequant_q8_0_to_f32(w: &[u8], gid: u64, in_dim: u64, blocks: u64) -> (r: u32)
    requires
        in_dim > 0,
        q8_0_block_at(gid as int, in_dim as int, blocks as int) + 34 <= w.len(),
        q8_0_block_at(gid as int, in_dim as int, blocks as int) <= u64::MAX,
    ensures
        is_product(
            r,
            widened(le_nat(w@, q8_0_block_at(gid as int, in_dim as int, blocks as int), 2) as u16),
            signed8(
                w@[q8_0_block_at(gid as int, in_dim as int, blocks as int) + 2 + (gid as int
                    % in_dim as int) % 32] as int,
            ),
        ),
{
    let (scale, q) = q8_0_weight(w, gid, in_dim, blocks);
    let ghost h = le_nat(w@, q8_0_block_at(gid as int, in_dim as int, blocks as int), 2) as u16;
    scaled(Ghost(h), scale, q)
}

/// The same in 16 bits.
pub fn dequant_q8_0_to_f16(w: &[u8], gid: u64, in_dim: u64, blocks: u64) -> (r: u16)
    requires
        in_dim > 0,
        q8_0_block_at(gid as int, in_dim as int, blocks as int) + 34 <= w.len(),
        q8_0_block_at(gid as int, in_dim as int, blocks as int) <= u64::MAX,
    ensures
        exists|b: u32|
            r == #[trigger] narrowed(b) && is_product(
                b,
                widened(
                    le_nat(w@, q8_0_block_at(gid as int, in_dim as int, blocks as int), 2) as u16,
                ),
                signed8(
                    w@[q8_0_block_at(gid as int, in_dim as int, blocks as int) + 2 + (gid as int
                        % in_dim as int) % 32] as int,
                ),
            ),
{
    f32_to_f16_bits(dequant_q8_0_to_f32(w, gid, in_dim, blocks))
}

} // verus!
