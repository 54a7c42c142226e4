//! Quantised numbers: the layouts of their blocks, and the integer part of products of blocks.
use vstd::prelude::*;

use crate::bytes::{le_bytes, le_nat, u16_le, u32_le};
use crate::kernels::utils::{f16_bits_to_f32, widened, written};

verus! {

/// The 256 patterns of eight weights that blocks of two-bit weights choose from, one weight to a
/// byte.
pub const IQ2_XXS_GRID: [u64; 256] = [
    0x0808080808080808, 0x080808080808082b, 0x0808080808081919, 0x0808080808082b08,
    0x0808080808082b2b, 0x0808080808190819, 0x0808080808191908, 0x08080808082b0808,
    0x08080808082b082b, 0x08080808082b2b08, 0x08080808082b2b2b, 0x0808080819080819,
    0x0808080819081908, 0x0808080819190808, 0x0808080819192b08, 0x08080808192b0819,
    0x08080808192b1908, 0x080808082b080808, 0x080808082b08082b, 0x080808082b082b2b,
    0x080808082b2b082b, 0x0808081908080819, 0x0808081908081908, 0x0808081908190808,
    0x0808081908191919, 0x0808081919080808, 0x080808192b081908, 0x080808192b192b08,
    0x0808082b08080808, 0x0808082b0808082b, 0x0808082b082b082b, 0x0808082b2b08082b,
    0x0808190808080819, 0x0808190808081908, 0x0808190808190808, 0x08081908082b0819,
    0x08081908082b1908, 0x0808190819080808, 0x080819081908082b, 0x0808190819082b08,
    0x08081908192b0808, 0x080819082b080819, 0x080819082b081908, 0x080819082b190808,
    0x080819082b2b1908, 0x0808191908080808, 0x080819190808082b, 0x0808191908082b08,
    0x08081919082b0808, 0x080819191908192b, 0x08081919192b2b19, 0x080819192b080808,
    0x080819192b190819, 0x0808192b08082b19, 0x0808192b08190808, 0x0808192b19080808,
    0x0808192b2b081908, 0x0808192b2b2b1908, 0x08082b0808080808, 0x08082b0808081919,
    0x08082b0808082b08, 0x08082b0808191908, 0x08082b08082b2b08, 0x08082b0819080819,
    0x08082b0819081908, 0x08082b0819190808, 0x08082b081919082b, 0x08082b082b082b08,
    0x08082b1908081908, 0x08082b1919080808, 0x08082b2b0808082b, 0x08082b2b08191908,
    0x0819080808080819, 0x0819080808081908, 0x0819080808190808, 0x08190808082b0819,
    0x0819080819080808, 0x08190808192b0808, 0x081908082b081908, 0x081908082b190808,
    0x081908082b191919, 0x0819081908080808, 0x0819081908082b08, 0x08190819082b0808,
    0x0819081919190808, 0x0819081919192b2b, 0x081908192b080808, 0x0819082b082b1908,
    0x0819082b19081919, 0x0819190808080808, 0x0819190808082b08, 0x08191908082b0808,
    0x08191908082b1919, 0x0819190819082b19, 0x081919082b080808, 0x0819191908192b08,
    0x08191919192b082b, 0x0819192b08080808, 0x0819192b0819192b, 0x08192b0808080819,
    0x08192b0808081908, 0x08192b0808190808, 0x08192b0819080808, 0x08192b082b080819,
    0x08192b1908080808, 0x08192b1908081919, 0x08192b192b2b0808, 0x08192b2b19190819,
    0x082b080808080808, 0x082b08080808082b, 0x082b080808082b2b, 0x082b080819081908,
    0x082b0808192b0819, 0x082b08082b080808, 0x082b08082b08082b, 0x082b0819082b2b19,
    0x082b081919082b08, 0x082b082b08080808, 0x082b082b0808082b, 0x082b190808080819,
    0x082b190808081908, 0x082b190808190808, 0x082b190819080808, 0x082b19081919192b,
    0x082b191908080808, 0x082b191919080819, 0x082b1919192b1908, 0x082b192b2b190808,
    0x082b2b0808082b08, 0x082b2b08082b0808, 0x082b2b082b191908, 0x082b2b2b19081908,
    0x1908080808080819, 0x1908080808081908, 0x1908080808190808, 0x1908080808192b08,
    0x19080808082b0819, 0x19080808082b1908, 0x1908080819080808, 0x1908080819082b08,
    0x190808081919192b, 0x19080808192b0808, 0x190808082b080819, 0x190808082b081908,
    0x190808082b190808, 0x1908081908080808, 0x19080819082b0808, 0x19080819192b0819,
    0x190808192b080808, 0x190808192b081919, 0x1908082b08080819, 0x1908082b08190808,
    0x1908082b19082b08, 0x1908082b1919192b, 0x1908082b192b2b08, 0x1908190808080808,
    0x1908190808082b08, 0x19081908082b0808, 0x190819082b080808, 0x190819082b192b19,
    0x190819190819082b, 0x19081919082b1908, 0x1908192b08080808, 0x19082b0808080819,
    0x19082b0808081908, 0x19082b0808190808, 0x19082b0819080808, 0x19082b0819081919,
    0x19082b1908080808, 0x19082b1919192b08, 0x19082b19192b0819, 0x19082b192b08082b,
    0x19082b2b19081919, 0x19082b2b2b190808, 0x1919080808080808, 0x1919080808082b08,
    0x1919080808190819, 0x1919080808192b19, 0x19190808082b0808, 0x191908082b080808,
    0x191908082b082b08, 0x1919081908081908, 0x191908191908082b, 0x191908192b2b1908,
    0x1919082b2b190819, 0x191919082b190808, 0x191919082b19082b, 0x1919191908082b2b,
    0x1919192b08080819, 0x1919192b19191908, 0x19192b0808080808, 0x19192b0808190819,
    0x19192b0808192b19, 0x19192b08192b1908, 0x19192b1919080808, 0x19192b2b08082b08,
    0x192b080808081908, 0x192b080808190808, 0x192b080819080808, 0x192b0808192b2b08,
    0x192b081908080808, 0x192b081919191919, 0x192b082b08192b08, 0x192b082b192b0808,
    0x192b190808080808, 0x192b190808081919, 0x192b191908190808, 0x192b19190819082b,
    0x192b19192b081908, 0x192b2b081908082b, 0x2b08080808080808, 0x2b0808080808082b,
    0x2b08080808082b2b, 0x2b08080819080819, 0x2b0808082b08082b, 0x2b08081908081908,
    0x2b08081908192b08, 0x2b08081919080808, 0x2b08082b08190819, 0x2b08190808080819,
    0x2b08190808081908, 0x2b08190808190808, 0x2b08190808191919, 0x2b08190819080808,
    0x2b081908192b0808, 0x2b08191908080808, 0x2b0819191908192b, 0x2b0819192b191908,
    0x2b08192b08082b19, 0x2b08192b19080808, 0x2b08192b192b0808, 0x2b082b080808082b,
    0x2b082b1908081908, 0x2b082b2b08190819, 0x2b19080808081908, 0x2b19080808190808,
    0x2b190808082b1908, 0x2b19080819080808, 0x2b1908082b2b0819, 0x2b1908190819192b,
    0x2b1908192b080808, 0x2b19082b19081919, 0x2b19190808080808, 0x2b191908082b082b,
    0x2b19190819081908, 0x2b19191919190819, 0x2b192b082b080819, 0x2b192b19082b0808,
    0x2b2b08080808082b, 0x2b2b080819190808, 0x2b2b08082b081919, 0x2b2b081908082b19,
    0x2b2b082b08080808, 0x2b2b190808192b08, 0x2b2b2b0819190808, 0x2b2b2b1908081908,
];

/// The 128 patterns of eight signs. Each has seven free bits, and an even number of bits set.
pub const IQ2_SIGNS: [u8; 128] = [
    0, 129, 130, 3, 132, 5, 6, 135, 136, 9, 10, 139, 12, 141, 142, 15, 144, 17, 18, 147, 20, 149,
    150, 23, 24, 153, 154, 27, 156, 29, 30, 159, 160, 33, 34, 163, 36, 165, 166, 39, 40, 169, 170,
    43, 172, 45, 46, 175, 48, 177, 178, 51, 180, 53, 54, 183, 184, 57, 58, 187, 60, 189, 190, 63,
    192, 65, 66, 195, 68, 197, 198, 71, 72, 201, 202, 75, 204, 77, 78, 207, 80, 209, 210, 83, 212,
    85, 86, 215, 216, 89, 90, 219, 92, 221, 222, 95, 96, 225, 226, 99, 228, 101, 102, 231, 232,
    105, 106, 235, 108, 237, 238, 111, 240, 113, 114, 243, 116, 245, 246, 119, 120, 249, 250, 123,
    252, 125, 126, 255,
];

/// The sum of `f` over the numbers below `n`.
pub open spec fn total(f: spec_fn(int) -> int, n: nat) -> int
    decreases n,
{
    if n == 0 {
        0
    } else {
        total(f, (n - 1) as nat) + f(n - 1)
    }
}

/// A stretch of a sum whose terms are multiples of the terms of another.
pub proof fn total_stretch(f: spec_fn(int) -> int, g: spec_fn(int) -> int, at: nat, c: int, n: nat)
    requires
        forall|k: int| 0 <= k < n ==> #[trigger] f(at + k) == c * g(k),
    ensures
        total(f, at + n) == total(f, at) + c * total(g, n),
    decreases n,
{
    if n > 0 {
        total_stretch(f, g, at, c, (n - 1) as nat);
        let m = n - 1;
        assert(f(at + m) == c * g(m));
        assert(c * (total(g, m as nat) + g(m)) == c * total(g, m as nat) + c * g(m))
            by (nonlinear_arith);
    } else {
        assert(c * total(g, 0) == 0) by (nonlinear_arith)
            requires
                total(g, 0) == 0,
        ;
    }
}

/// A sum of terms that are bounded is bounded.
pub proof fn total_bound(f: spec_fn(int) -> int, n: nat, b: int)
    requires
        forall|k: int| 0 <= k < n ==> -b <= #[trigger] f(k) <= b,
    ensures
        -(n * b) <= total(f, n) <= n * b,
    decreases n,
{
    if n > 0 {
        total_bound(f, (n - 1) as nat, b);
        assert(n * b == (n - 1) * b + b) by (nonlinear_arith);
    }
}

/// A product of bounded numbers is bounded.
proof fn product_bound(x: int, y: int, a: int, b: int)
    requires
        -a <= x <= a,
        -b <= y <= b,
    ensures
        -(a * b) <= x * y <= a * b,
{
    assert(-(a * b) <= x * y <= a * b) by (nonlinear_arith)
        requires
            -a <= x <= a,
            -b <= y <= b,
    ;
}

/// Digit `k` of a number, the lowest first.
pub open spec fn digit(v: nat, base: nat, k: nat) -> nat
    decreases k,
{
    if k == 0 {
        v % base
    } else {
        digit(v / base, base, (k - 1) as nat)
    }
}

/// A digit is below the base.
pub proof fn digit_bound(v: nat, base: nat, k: nat)
    requires
        base > 0,
    ensures
        digit(v, base, k) < base,
    decreases k,
{
    if k > 0 {
        digit_bound(v / base, base, (k - 1) as nat);
    } else {
        assert(v % base < base) by (nonlinear_arith)
            requires
                base > 0,
        ;
    }
}

/// Digit `k` of a number.
pub fn nth_digit(v: u64, base: u64, k: usize) -> (r: u64)
    requires
        base > 0,
    ensures
        r == digit(v as nat, base as nat, k as nat),
        r < base,
{
    let mut rest: u64 = v;
    let mut i: usize = 0;
    while i < k
        invariant
            i <= k,
            base > 0,
            digit(v as nat, base as nat, k as nat) == digit(
                rest as nat,
                base as nat,
                (k - i) as nat,
            ),
        decreases k - i,
    {
        rest = rest / base;
        i = i + 1;
    }
    rest % base
}

/// The signed number that a byte stands for.
pub open spec fn signed8(b: int) -> int {
    if b < 128 {
        b
    } else {
        b - 256
    }
}

/// The signed number of a byte.
pub fn byte_i32(b: u8) -> (r: i32)
    ensures
        r == signed8(b as int),
        -128 <= r <= 127,
{
    if b < 128 {
        b as i32
    } else {
        b as i32 - 256
    }
}

/// How many bits of a byte are set.
pub open spec fn ones(b: u8) -> int {
    total(|k: int| digit(b as nat, 2, k as nat) as int, 8)
}

/// A byte with its highest bit flipped where the number of its bits is odd.
pub open spec fn unpacked(sign: u8) -> u8 {
    if ones(sign) % 2 == 0 {
        sign
    } else if sign < 128 {
        (sign + 128) as u8
    } else {
        (sign - 128) as u8
    }
}

/// Makes the number of set bits even: flips the highest bit where it is odd.
pub fn unpack_iq2_signs(sign: u8) -> (r: u8)
    ensures
        r == unpacked(sign),
{
    let ghost f = |k: int| digit(sign as nat, 2, k as nat) as int;
    let mut n: u64 = 0;
    let mut k: usize = 0;
    while k < 8
        invariant
            k <= 8,
            n <= k,
            f == (|k: int| digit(sign as nat, 2, k as nat) as int),
            n == total(f, k as nat),
        decreases 8 - k,
    {
        n = n + nth_digit(sign as u64, 2, k);
        k = k + 1;
    }
    if n % 2 == 0 {
        sign
    } else if sign < 128 {
        sign + 128
    } else {
        sign - 128
    }
}

/// Weight `k` of a pattern: byte `k`, negative where bit `k` of the signs is set.
pub open spec fn patterned(grid: u64, sign: u8, k: int) -> int {
    let g = signed8(digit(grid as nat, 256, k as nat) as int);
    if digit(unpacked(sign) as nat, 2, k as nat) == 1 {
        -g
    } else {
        g
    }
}

/// No weight that is to be negated is the one byte that has no negative.
pub open spec fn negatable(grid: u64, sign: u8) -> bool {
    forall|k: int|
        0 <= k < 8 && #[trigger] digit(unpacked(sign) as nat, 2, k as nat) == 1 ==> digit(
            grid as nat,
            256,
            k as nat,
        ) != 128
}

/// The product of eight weights of a pattern with the eight numbers from `at` on.
pub open spec fn pattern_term(grid: u64, sign: u8, q8: Seq<u8>, at: int) -> spec_fn(int) -> int {
    |k: int| patterned(grid, sign, k) * signed8(q8[at + k] as int)
}

/// The product of the eight weights of a pattern with the eight signed bytes from `at` on.
pub fn dot_iq2_dp8(grid: u64, sign_byte: u8, q8: &[u8], at: usize) -> (r: i32)
    requires
        at + 8 <= q8.len(),
        negatable(grid, sign_byte),
    ensures
        r == total(pattern_term(grid, sign_byte, q8@, at as int), 8),
        -131072 <= r <= 131072,
{
    let ghost f = pattern_term(grid, sign_byte, q8@, at as int);
    let sb: u8 = unpack_iq2_signs(sign_byte);
    let mut acc: i32 = 0;
    let mut i: usize = 0;
    while i < 8
        invariant
            i <= 8,
            at + 8 <= q8.len(),
            sb == unpacked(sign_byte),
            f == pattern_term(grid, sign_byte, q8@, at as int),
            acc == total(f, i as nat),
            -(i * 16384) <= acc <= i * 16384,
        decreases 8 - i,
    {
        let g: i32 = byte_i32(nth_digit(grid, 256, i) as u8);
        let w: i32 = if nth_digit(sb as u64, 2, i) == 1 {
            -g
        } else {
            g
        };
        let x: i32 = byte_i32(q8[at + i]);
        proof {
            product_bound(w as int, x as int, 128, 128);
            assert(f(i as int) == w * x);
        }
        acc = acc + w * x;
        i = i + 1;
    }
    acc
}

/// A little-endian 16-bit number.
pub fn read_u16_le(p: &[u8], at: usize) -> (r: u16)
    requires
        at + 2 <= p.len(),
    ensures
        r == le_nat(p@, at as int, 2),
{
    u16_le(p, at)
}

/// The bits of a little-endian 32-bit floating-point number.
pub fn read_f32_le(p: &[u8], at: usize) -> (r: u32)
    requires
        at + 4 <= p.len(),
    ensures
        r == le_nat(p@, at as int, 4),
{
    u32_le(p, at)
}

/// The signed number that 16 bits stand for.
pub open spec fn signed16(v: int) -> int {
    if v < 0x8000 {
        v
    } else {
        v - 0x1_0000
    }
}

/// A little-endian signed 16-bit number.
pub fn read_i16_le(p: &[u8], at: usize) -> (r: i16)
    requires
        at + 2 <= p.len(),
    ensures
        r == signed16(le_nat(p@, at as int, 2) as int),
{
    let v: u16 = u16_le(p, at);
    if v < 0x8000 {
        v as i16
    } else {
        (v as i32 - 0x1_0000) as i16
    }
}

/// Activation `i` of a block of 256: a signed byte behind the scale.
pub open spec fn q8k_value(blk: Seq<u8>, i: int) -> int {
    signed8(blk[4 + i] as int)
}

/// The sum that a block of activations keeps for its group `j` of sixteen.
pub open spec fn q8k_sum(blk: Seq<u8>, j: int) -> int {
    signed16(le_nat(blk, 260 + j * 2, 2) as int)
}

/// Where the group of 32 weights that holds weight `i` starts.
pub open spec fn iq2_group(i: int) -> int {
    2 + (i / 32) * 8
}

/// The pattern of weight `i`.
pub open spec fn iq2_pattern(blk: Seq<u8>, grid: Seq<u64>, i: int) -> u64 {
    grid[blk[iq2_group(i) + (i % 32) / 8] as int]
}

/// The signs of weight `i`.
pub open spec fn iq2_sign(blk: Seq<u8>, signs: Seq<u8>, i: int) -> u8 {
    signs[digit(le_nat(blk, iq2_group(i) + 4, 4), 128, ((i % 32) / 8) as nat) as int]
}

/// The odd factor of the group that holds weight `i`.
pub open spec fn iq2_factor(blk: Seq<u8>, i: int) -> int {
    2 * (le_nat(blk, iq2_group(i) + 4, 4) as int / 0x1000_0000) + 1
}

/// Weight `i` of a block of two-bit weights, in eighths of the block's scale.
pub open spec fn iq2_value(blk: Seq<u8>, grid: Seq<u64>, signs: Seq<u8>, i: int) -> int {
    iq2_factor(blk, i) * patterned(iq2_pattern(blk, grid, i), iq2_sign(blk, signs, i), i % 8)
}

/// The terms of the product of a block of two-bit weights with a block of activations.
pub open spec fn iq2_term(
    blk: Seq<u8>,
    q8k: Seq<u8>,
    grid: Seq<u64>,
    signs: Seq<u8>,
) -> spec_fn(int) -> int {
    |i: int| iq2_value(blk, grid, signs, i) * q8k_value(q8k, i)
}

/// The product of a block of two-bit weights with a block of activations: an eighth of `sum` times
/// both scales.
#[derive(Clone, Copy, Debug, PartialEq, Eq, Structural)]
pub struct Iq2Dot {
    /// Bits of the scale of the weights.
    pub xd: u32,
    /// Bits of the scale of the activations.
    pub yd: u32,
    pub sum: i32,
}

/// Every pattern that a block uses goes with its signs.
pub open spec fn iq2_usable(blk: Seq<u8>, grid: Seq<u64>, signs: Seq<u8>) -> bool {
    forall|i: int|
        0 <= i < 256 ==> negatable(
            #[trigger] iq2_pattern(blk, grid, i),
            iq2_sign(blk, signs, i),
        )
}

/// Multiplies a block of two-bit weights (66 bytes: a 16-bit scale, then eight groups of four
/// patterns, four signs and a factor) with a block of activations (292 bytes).
pub fn dot_iq2_xxs_q8k(iq2_blk: &[u8], q8k_blk: &[u8], grid: &[u64], signs: &[u8]) -> (r: Iq2Dot)
    requires
        iq2_blk.len() >= 66,
        q8k_blk.len() >= 260,
        grid.len() >= 256,
        signs.len() >= 128,
        iq2_usable(iq2_blk@, grid@, signs@),
    ensures
        r.xd == widened(le_nat(iq2_blk@, 0, 2) as u16),
        r.yd == le_nat(q8k_blk@, 0, 4),
        r.sum == total(iq2_term(iq2_blk@, q8k_blk@, grid@, signs@), 256),
{
    let xd: u32 = f16_bits_to_f32(read_u16_le(iq2_blk, 0));
    let yd: u32 = read_f32_le(q8k_blk, 0);
    let ghost f = iq2_term(iq2_blk@, q8k_blk@, grid@, signs@);
    let mut bsum: i32 = 0;
    let mut ib32: usize = 0;
    while ib32 < 8
        invariant
            ib32 <= 8,
            iq2_blk.len() >= 66,
            q8k_blk.len() >= 260,
            grid.len() >= 256,
            signs.len() >= 128,
            iq2_usable(iq2_blk@, grid@, signs@),
            f == iq2_term(iq2_blk@, q8k_blk@, grid@, signs@),
            bsum == total(f, (ib32 * 32) as nat),
            -(ib32 * 16252928) <= bsum <= ib32 * 16252928,
        decreases 8 - ib32,
    {
        let q2: usize = 2 + ib32 * 8;
        let aux1: u32 = u32_le(iq2_blk, q2 + 4);
        let ls: i32 = 2 * ((aux1 / 0x1000_0000) as i32) + 1;
        let mut sumi: i32 = 0;
        let mut g: usize = 0;
        assert(ls * sumi == 0) by (nonlinear_arith)
            requires
                sumi == 0,
        ;
        while g < 4
            invariant
                g <= 4,
                ib32 < 8,
                iq2_blk.len() >= 66,
                q8k_blk.len() >= 260,
                grid.len() >= 256,
                signs.len() >= 128,
                iq2_usable(iq2_blk@, grid@, signs@),
                f == iq2_term(iq2_blk@, q8k_blk@, grid@, signs@),
                q2 == 2 + ib32 * 8,
                aux1 == le_nat(iq2_blk@, q2 + 4, 4),
                ls == 2 * (aux1 as int / 0x1000_0000) + 1,
                1 <= ls <= 31,
                total(f, (ib32 * 32 + g * 8) as nat) == bsum + ls * sumi,
                -(g * 131072) <= sumi <= g * 131072,
            decreases 4 - g,
        {
            let a: usize = iq2_blk[q2 + g] as usize;
            let s: usize = nth_digit(aux1 as u64, 128, g) as usize;
            let at: usize = 4 + ib32 * 32 + g * 8;
            let ghost base = (ib32 * 32 + g * 8) as int;
            proof {
                assert(iq2_group(base) == q2);
                assert(iq2_pattern(iq2_blk@, grid@, base) == grid@[a as int]);
                assert(iq2_sign(iq2_blk@, signs@, base) == signs@[s as int]);
            }
            let d: i32 = dot_iq2_dp8(grid[a], signs[s], q8k_blk, at);
            proof {
                let t = pattern_term(grid@[a as int], signs@[s as int], q8k_blk@, at as int);
                assert forall|k: int| 0 <= k < 8 implies #[trigger] f(base + k) == ls * t(k) by {
                    let i = base + k;
                    assert(i / 32 == ib32 && (i % 32) / 8 == g && i % 8 == k);
                    let p = patterned(grid@[a as int], signs@[s as int], k);
                    let x = signed8(q8k_blk@[at + k] as int);
                    assert(f(i) == (ls * p) * x);
                    assert((ls * p) * x == ls * (p * x)) by (nonlinear_arith);
                }
                total_stretch(f, t, base as nat, ls as int, 8);
                assert(ls * (sumi + d) == ls * sumi + ls * d) by (nonlinear_arith);
            }
            sumi = sumi + d;
            g = g + 1;
        }
        proof {
            product_bound(sumi as int, ls as int, 524288, 31);
            assert(sumi * ls == ls * sumi) by (nonlinear_arith);
        }
        bsum = bsum + sumi * ls;
        ib32 = ib32 + 1;
    }
    Iq2Dot { xd, yd, sum: bsum }
}

/// The terms of a product of sixteen two-bit numbers with sixteen signed bytes.
pub open spec fn q2_term(q2: Seq<u8>, q2_at: int, q8: Seq<u8>, q8_at: int, field: int) -> spec_fn(
    int,
) -> int {
    |l: int|
        digit(q2[q2_at + l] as nat, 4, field as nat) as int * signed8(q8[q8_at + l] as int)
}

/// The product of sixteen two-bit numbers with sixteen signed bytes. `shift` tells which of the
/// four numbers in each byte is meant.
pub fn dot_q2_16(q2: &[u8], q2_at: usize, q8: &[u8], q8_at: usize, shift: usize) -> (r: i32)
    requires
        q2_at + 16 <= q2.len(),
        q8_at + 16 <= q8.len(),
        shift == 0 || shift == 2 || shift == 4 || shift == 6,
    ensures
        r == total(q2_term(q2@, q2_at as int, q8@, q8_at as int, shift as int / 2), 16),
        -6144 <= r <= 6144,
{
    let ghost f = q2_term(q2@, q2_at as int, q8@, q8_at as int, shift as int / 2);
    let mut sum: i32 = 0;
    let mut i: usize = 0;
    while i < 16
        invariant
            i <= 16,
            q2_at + 16 <= q2.len(),
            q8_at + 16 <= q8.len(),
            f == q2_term(q2@, q2_at as int, q8@, q8_at as int, shift as int / 2),
            sum == total(f, i as nat),
            -(i * 384) <= sum <= i * 384,
        decreases 16 - i,
    {
        let q: i32 = nth_digit(q2[q2_at + i] as u64, 4, shift / 2) as i32;
        let x: i32 = byte_i32(q8[q8_at + i]);
        proof {
            product_bound(q as int, x as int, 3, 128);
            assert(f(i as int) == q * x);
        }
        sum = sum + q * x;
        i = i + 1;
    }
    sum
}

/// The two-bit number of weight `i` of a block: four weights that lie 32 apart share a byte.
pub open spec fn q2k_value(blk: Seq<u8>, i: int) -> int {
    digit(blk[16 + (i / 128) * 32 + i % 32] as nat, 4, ((i % 128) / 32) as nat) as int
}

/// The terms of the product of the two-bit numbers with the activations, each with the factor of
/// its group of sixteen.
pub open spec fn q2k_term(blk: Seq<u8>, q8k: Seq<u8>) -> spec_fn(int) -> int {
    |i: int| (blk[i / 16] as int % 16) * (q2k_value(blk, i) * q8k_value(q8k, i))
}

/// The terms of the product of the offsets of the groups with the sums of the activations.
pub open spec fn q2k_offset_term(blk: Seq<u8>, q8k: Seq<u8>) -> spec_fn(int) -> int {
    |j: int| q8k_sum(q8k, j) * (blk[j] as int / 16)
}

/// The product of a block of two-bit weights that have an offset with a block of activations:
/// `yd * xd * isum - yd * xdmin * summs`.
#[derive(Clone, Copy, Debug, PartialEq, Eq, Structural)]
pub struct Q2Dot {
    /// Bits of the scale of the weights.
    pub xd: u32,
    /// Bits of the scale of the offsets.
    pub xdmin: u32,
    /// Bits of the scale of the activations.
    pub yd: u32,
    pub isum: i32,
    pub summs: i32,
}

/// Multiplies a block of two-bit weights with offsets (84 bytes: sixteen bytes of factors and
/// offsets, 64 bytes of weights, two 16-bit scales) with a block of activations (292 bytes).
pub fn dot_q2k_q8k(q2k_blk: &[u8], q8k_blk: &[u8]) -> (r: Q2Dot)
    requires
        q2k_blk.len() >= 84,
        q8k_blk.len() >= 292,
    ensures
        r.xd == widened(le_nat(q2k_blk@, 80, 2) as u16),
        r.xdmin == widened(le_nat(q2k_blk@, 82, 2) as u16),
        r.yd == le_nat(q8k_blk@, 0, 4),
        r.isum == total(q2k_term(q2k_blk@, q8k_blk@), 256),
        r.summs == total(q2k_offset_term(q2k_blk@, q8k_blk@), 16),
{
    let xd: u32 = f16_bits_to_f32(read_u16_le(q2k_blk, 80));
    let xdmin: u32 = f16_bits_to_f32(read_u16_le(q2k_blk, 82));
    let yd: u32 = read_f32_le(q8k_blk, 0);
    let summs: i32 = offsets_sum(q2k_blk, q8k_blk);
    let ghost f = q2k_term(q2k_blk@, q8k_blk@);
    let mut isum: i32 = 0;
    let mut is: usize = 0;
    while is < 16
        invariant
            is <= 16,
            q2k_blk.len() >= 84,
            q8k_blk.len() >= 292,
            f == q2k_term(q2k_blk@, q8k_blk@),
            isum == total(f, (is * 16) as nat),
            -(is * 92160) <= isum <= is * 92160,
        decreases 16 - is,
    {
        let d: i32 = (q2k_blk[is] % 16) as i32;
        let q2_at: usize = 16 + (is / 8) * 32 + (is % 2) * 16;
        let q8_at: usize = 4 + is * 16;
        let shift: usize = ((is % 8) / 2) * 2;
        let s: i32 = dot_q2_16(q2k_blk, q2_at, q8k_blk, q8_at, shift);
        proof {
            let t = q2_term(q2k_blk@, q2_at as int, q8k_blk@, q8_at as int, shift as int / 2);
            let base = is * 16;
            assert forall|l: int| 0 <= l < 16 implies #[trigger] f(base + l) == d * t(l) by {
                let i = base + l;
                assert(i / 16 == is);
                assert(i / 128 == is / 8);
                assert(i % 32 == (is % 2) * 16 + l);
                assert((i % 128) / 32 == (is % 8) / 2);
            }
            total_stretch(f, t, base as nat, d as int, 16);
            product_bound(d as int, s as int, 15, 6144);
        }
        isum = isum + d * s;
        is = is + 1;
    }
    Q2Dot { xd, xdmin, yd, isum, summs }
}

/// The product of the offsets of the groups with the sums of the activations.
fn offsets_sum(q2k_blk: &[u8], q8k_blk: &[u8]) -> (r: i32)
    requires
        q2k_blk.len() >= 84,
        q8k_blk.len() >= 292,
    ensures
        r == total(q2k_offset_term(q2k_blk@, q8k_blk@), 16),
{
    let ghost f = q2k_offset_term(q2k_blk@, q8k_blk@);
    let mut summs: i32 = 0;
    let mut j: usize = 0;
    while j < 16
        invariant
            j <= 16,
            q2k_blk.len() >= 84,
            q8k_blk.len() >= 292,
            f == q2k_offset_term(q2k_blk@, q8k_blk@),
            summs == total(f, j as nat),
            -(j * 491520) <= summs <= j * 491520,
        decreases 16 - j,
    {
        let b: i32 = read_i16_le(q8k_blk, 260 + j * 2) as i32;
        let m: i32 = (q2k_blk[j] / 16) as i32;
        proof {
            product_bound(b as int, m as int, 32768, 15);
            assert(f(j as int) == b * m);
        }
        summs = summs + b * m;
        j = j + 1;
    }
    summs
}

/// The byte that stands for a signed number.
pub open spec fn unsigned8(v: int) -> u8 {
    (if v < 0 {
        v + 256
    } else {
        v
    }) as u8
}

/// The sum of group `j` of sixteen numbers.
pub open spec fn group_sum(qs: Seq<i8>, j: int) -> int {
    total(|k: int| qs[j * 16 + k] as int, 16)
}

/// The two bytes of a signed number.
pub open spec fn le_signed16(v: int) -> Seq<u8> {
    le_bytes(
        (if v < 0 {
            v + 0x1_0000
        } else {
            v
        }) as nat,
        2,
    )
}

/// The bytes of the first `n` group sums.
pub open spec fn sums_bytes(qs: Seq<i8>, n: nat) -> Seq<u8>
    decreases n,
{
    if n == 0 {
        Seq::empty()
    } else {
        sums_bytes(qs, (n - 1) as nat) + le_signed16(group_sum(qs, n - 1))
    }
}

/// The bytes of a block of activations: the scale, the numbers, and the sums of their groups.
pub open spec fn q8k_bytes(d: u32, qs: Seq<i8>) -> Seq<u8> {
    le_bytes(d as nat, 4) + qs.map_values(|v: i8| unsigned8(v as int)) + sums_bytes(qs, 16)
}

/// Lays out a block of activations.
pub fn q8k_block(d: u32, qs: &[i8]) -> (out: Vec<u8>)
    requires
        qs.len() == 256,
    ensures
        out@ == q8k_bytes(d, qs@),
{
    let mut out: Vec<u8> = Vec::new();
    out.push((d % 256) as u8);
    out.push(((d / 256) % 256) as u8);
    out.push(((d / 65536) % 256) as u8);
    out.push((d / 16777216) as u8);
    proof {
        reveal_with_fuel(le_bytes, 5);
        assert(out@ =~= le_bytes(d as nat, 4));
    }
    let ghost head = out@;
    let mut i: usize = 0;
    while i < 256
        invariant
            i <= 256,
            qs.len() == 256,
            out@ =~= head + qs@.take(i as int).map_values(|v: i8| unsigned8(v as int)),
        decreases 256 - i,
    {
        let v: i8 = qs[i];
        if v < 0 {
            out.push((v as i16 + 256) as u8);
        } else {
            out.push(v as u8);
        }
        i = i + 1;
    }
    assert(qs@.take(256) =~= qs@);
    let ghost body = out@;
    let mut j: usize = 0;
    while j < 16
        invariant
            j <= 16,
            qs.len() == 256,
            out@ =~= body + sums_bytes(qs@, j as nat),
        decreases 16 - j,
    {
        let ghost f = |k: int| qs@[j * 16 + k] as int;
        let mut sum: i32 = 0;
        let mut k: usize = 0;
        while k < 16
            invariant
                k <= 16,
                j < 16,
                qs.len() == 256,
                f == (|k: int| qs@[j * 16 + k] as int),
                sum == total(f, k as nat),
                -(k * 128) <= sum <= k * 128,
            decreases 16 - k,
        {
            assert(f(k as int) == qs@[j * 16 + k]);
            sum = sum + qs[j * 16 + k] as i32;
            k = k + 1;
        }
        assert(sum == group_sum(qs@, j as int));
        let u: u32 = if sum < 0 {
            (sum + 0x1_0000) as u32
        } else {
            sum as u32
        };
        let low: u8 = (u % 256) as u8;
        let high: u8 = (u / 256) as u8;
        proof {
            reveal_with_fuel(le_bytes, 3);
            assert(le_signed16(sum as int) =~= seq![low, high]);
        }
        out.push(low);
        out.push(high);
        j = j + 1;
    }
    out
}

/// A rounded number cut to the range of a signed byte.
pub fn clamp_i8(rounded: i32) -> (r: i8)
    ensures
        r == clamped8(rounded),
{
    if rounded > 127 {
        127
    } else if rounded < -128 {
        -128
    } else {
        rounded as i8
    }
}

/// A rounded number in the range of a signed byte.
pub open spec fn clamped8(v: i32) -> i8 {
    if v > 127 {
        127i8
    } else if v < -128 {
        -128i8
    } else {
        v as i8
    }
}

/// Lays out a block of activations from its scale and its rounded numbers.
pub fn q8k_quantize(d: u32, rounded: &[i32]) -> (out: Vec<u8>)
    requires
        rounded.len() == 256,
    ensures
        out@ == q8k_bytes(d, rounded@.map_values(|v: i32| clamped8(v))),
{
    let mut qs: Vec<i8> = Vec::new();
    let mut i: usize = 0;
    while i < 256
        invariant
            i <= 256,
            rounded.len() == 256,
            qs@ =~= rounded@.take(i as int).map_values(|v: i32| clamped8(v)),
        decreases 256 - i,
    {
        qs.push(clamp_i8(rounded[i]));
        i = i + 1;
    }
    assert(rounded@.take(256) =~= rounded@);
    q8k_block(d, qs.as_slice())
}

/// A block of 32 numbers: the rounded numbers of its elements, and zeros behind them.
pub open spec fn q8_0_numbers(rounded: Seq<i32>) -> Seq<i8> {
    Seq::new(
        32,
        |i: int|
            if i < rounded.len() {
                clamped8(rounded[i])
            } else {
                0i8
            },
    )
}

/// Stores the rounded numbers of a block of 32 as block `b` of row `tok`.
pub fn quantize_q8_0(xq: &mut Vec<i8>, tok: usize, b: usize, blocks: usize, rounded: &[i32])
    requires
        rounded.len() <= 32,
        b < blocks,
        (tok + 1) * blocks * 32 <= old(xq).len(),
    ensures
        final(xq)@ == written(old(xq)@, (tok * blocks + b) * 32, q8_0_numbers(rounded@)),
{
    let ghost before = xq@;
    assert((tok + 1) * blocks == tok * blocks + blocks) by (nonlinear_arith);
    assert(tok * blocks >= 0) by (nonlinear_arith);
    assert(before.len() == xq.len());
    let at: usize = (tok * blocks + b) * 32;
    let mut i: usize = 0;
    while i < 32
        invariant
            i <= 32,
            at + 32 <= before.len(),
            before.len() <= usize::MAX,
            xq@.len() == before.len(),
            xq@ =~= written(before, at as int, q8_0_numbers(rounded@).take(i as int)),
        decreases 32 - i,
    {
        let v: i8 = if i < rounded.len() {
            clamp_i8(rounded[i])
        } else {
            0
        };
        xq.set(at + i, v);
        i = i + 1;
    }
    assert(q8_0_numbers(rounded@).take(32) =~= q8_0_numbers(rounded@));
}

/// How many elements block `b` of 32 has in a row of `in_dim`.
pub open spec fn q8_0_count(in_dim: int, b: int) -> int {
    if in_dim - b * 32 < 32 {
        in_dim - b * 32
    } else {
        32
    }
}

/// How many elements block `b` has.
pub fn q8_0_block_len(in_dim: u64, b: u64) -> (r: usize)
    requires
        b * 32 <= in_dim,
    ensures
        r == q8_0_count(in_dim as int, b as int),
        r <= 32,
{
    if in_dim - b * 32 < 32 {
        (in_dim - b * 32) as usize
    } else {
        32
    }
}

/// Bytes of a block of 32 one-byte weights and their 16-bit scale.
pub const Q8_0_BLOCK_BYTES: u64 = 34;

/// Where the block of element `gid` starts, for rows of `in_dim` elements in `blocks` blocks.
pub open spec fn q8_0_block_at(gid: int, in_dim: int, blocks: int) -> int {
    ((gid / in_dim) * blocks + (gid % in_dim) / 32) * 34
}

/// The scale (as bits) and the number of element `gid` of a matrix of one-byte weights: the
/// element's value is their product.
pub fn q8_0_weight(w: &[u8], gid: u64, in_dim: u64, blocks: u64) -> (r: (u32, i32))
    requires
        in_dim > 0,
        q8_0_block_at(gid as int, in_dim as int, blocks as int) + 34 <= w.len(),
        q8_0_block_at(gid as int, in_dim as int, blocks as int) <= u64::MAX,
    ensures
        r.0 == widened(
            le_nat(w@, q8_0_block_at(gid as int, in_dim as int, blocks as int), 2) as u16,
        ),
        r.1 == signed8(
            w@[q8_0_block_at(gid as int, in_dim as int, blocks as int) + 2 + (gid as int
                % in_dim as int) % 32] as int,
        ),
{
    let row: u64 = gid / in_dim;
    let i: u64 = gid % in_dim;
    let b: u64 = i / 32;
    let j: usize = (i % 32) as usize;
    assert(row * blocks >= 0) by (nonlinear_arith);
    let at: usize = ((row * blocks + b) * 34) as usize;
    (f16_bits_to_f32(read_u16_le(w, at)), byte_i32(w[at + 2 + j]))
}

} // verus!
