//! Rounding to eight-bit floating-point numbers with four bits of exponent and three of fraction.
use vstd::arithmetic::power2::{lemma2_to64, lemma_pow2_adds, lemma_pow2_pos, pow2};
use vstd::prelude::*;

use crate::kernels::float::{float_is_nan, is_nan};

verus! {

/// The largest of the numbers: 448.
pub const E4M3_MAX: u32 = 0x43E0_0000;

/// Number `i` in units of 1/512.
pub open spec fn e4m3_units(i: int) -> nat {
    if i < 8 {
        i as nat
    } else {
        ((8 + i % 8) as nat) * pow2((i / 8 - 1) as nat)
    }
}

/// The size of a finite floating-point number, in units of the smallest one above zero.
pub open spec fn magnitude(b: int) -> nat {
    if b < 0x80_0000 {
        b as nat
    } else {
        ((0x80_0000 + b % 0x80_0000) as nat) * pow2((b / 0x80_0000 - 1) as nat)
    }
}

/// The size of number `i`, in units of the smallest floating-point number above zero.
pub open spec fn e4m3_magnitude(i: int) -> nat {
    e4m3_units(i) * pow2(140)
}

/// The floating-point pattern of number `i`.
pub open spec fn e4m3_bits(i: int) -> int {
    if i == 0 {
        0
    } else if i == 1 {
        0x3B00_0000
    } else if i < 4 {
        0x3B80_0000 + (i - 2) * 0x40_0000
    } else if i < 8 {
        0x3C00_0000 + (i - 4) * 0x20_0000
    } else {
        0x3C00_0000 + i * 0x10_0000
    }
}

/// The floating-point pattern half way between numbers `i` and `i + 1`.
spec fn e4m3_half(i: int) -> int {
    if i == 0 {
        0x3A80_0000
    } else if i == 1 {
        0x3B40_0000
    } else if i < 4 {
        0x3BA0_0000 + (i - 2) * 0x40_0000
    } else if i < 8 {
        0x3C10_0000 + (i - 4) * 0x20_0000
    } else {
        0x3C08_0000 + i * 0x10_0000
    }
}

proof fn bits_measure(e: nat, m: nat, b: int)
    requires
        1 <= e,
        m < 0x80_0000,
        b == e * 0x80_0000 + m,
    ensures
        magnitude(b) == (0x80_0000 + m) * pow2((e - 1) as nat),
{
    assert(b / 0x80_0000 == e);
    assert(b % 0x80_0000 == m);
}

/// Splits a power of two off another.
proof fn split_pow2(m: nat, k: nat, a: nat, b: nat)
    requires
        k == a + b,
    ensures
        m * pow2(k) == (m * pow2(a)) * pow2(b),
{
    lemma_pow2_adds(a, b);
    assert(m * (pow2(a) * pow2(b)) == (m * pow2(a)) * pow2(b)) by (nonlinear_arith);
}

/// The pattern of number `i` has its size.
pub proof fn pattern_has_the_size(i: int)
    requires
        0 <= i <= 126,
    ensures
        magnitude(e4m3_bits(i)) == e4m3_magnitude(i),
        0 <= e4m3_bits(i) <= E4M3_MAX,
{
    lemma2_to64();
    let b = e4m3_bits(i);
    if i == 0 {
        assert(0 * pow2(140) == 0) by (nonlinear_arith);
    } else if i == 1 {
        bits_measure(118, 0, b);
        split_pow2(1, 140, 23, 117);
    } else if i < 4 {
        bits_measure(119, ((i - 2) * 0x40_0000) as nat, b);
        split_pow2(i as nat, 140, 22, 118);
    } else if i < 8 {
        bits_measure(120, ((i - 4) * 0x20_0000) as nat, b);
        split_pow2(i as nat, 140, 21, 119);
    } else {
        let e = (i / 8) as nat;
        let m = (i % 8) as nat;
        assert(b == (e + 120) * 0x80_0000 + m * 0x10_0000);
        bits_measure(e + 120, m * 0x10_0000, b);
        assert(magnitude(b) == ((8 + m) * 0x10_0000) * pow2((e + 119) as nat));
        split_pow2(8 + m, (e + 139) as nat, 20, (e + 119) as nat);
        split_pow2(8 + m, (e + 139) as nat, (e - 1) as nat, 140);
    }
}

proof fn twice(a: int, x: int)
    ensures
        2 * (a * x) == (2 * a) * x,
{
    assert(2 * (a * x) == (2 * a) * x) by (nonlinear_arith);
}

/// The half-way pattern is half way.
proof fn half_is_half_way(i: int)
    requires
        0 <= i < 126,
    ensures
        2 * magnitude(e4m3_half(i)) == e4m3_magnitude(i) + e4m3_magnitude(i + 1),
        0 <= e4m3_half(i) <= E4M3_MAX,
{
    lemma2_to64();
    let b = e4m3_half(i);
    let p = pow2(140);
    assert(i * p + (i + 1) * p == (2 * i + 1) * p) by (nonlinear_arith);
    if i == 0 {
        bits_measure(117, 0, b);
        split_pow2(1, 140, 24, 116);
        twice(0x80_0000, pow2(116) as int);
        assert(0 * p == 0 && 1 * p == p) by (nonlinear_arith);
    } else if i == 1 {
        bits_measure(118, 0x40_0000, b);
        split_pow2(3, 140, 23, 117);
        twice(0xC0_0000, pow2(117) as int);
    } else if i < 4 {
        bits_measure(119, (0x20_0000 + (i - 2) * 0x40_0000) as nat, b);
        split_pow2((2 * i + 1) as nat, 140, 22, 118);
        twice((2 * i + 1) * 0x20_0000, pow2(118) as int);
    } else if i < 7 {
        bits_measure(120, (0x10_0000 + (i - 4) * 0x20_0000) as nat, b);
        split_pow2((2 * i + 1) as nat, 140, 21, 119);
        twice((2 * i + 1) * 0x10_0000, pow2(119) as int);
    } else if i == 7 {
        bits_measure(120, 0x70_0000, b);
        split_pow2(15, 140, 21, 119);
        twice(0xF0_0000, pow2(119) as int);
        assert(8int / 8 - 1 == 0 && 8int % 8 == 0);
        assert(e4m3_units(8) == 8 * pow2(0));
    } else {
        let e = (i / 8) as nat;
        let m = (i % 8) as nat;
        assert(b == (e + 120) * 0x80_0000 + (m * 0x10_0000 + 0x8_0000));
        bits_measure(e + 120, m * 0x10_0000 + 0x8_0000, b);
        let q = pow2((e + 119) as nat);
        let u = pow2((e - 1) as nat);
        assert(magnitude(b) == ((17 + 2 * m) * 0x8_0000) * q);
        split_pow2(17 + 2 * m, (e + 139) as nat, 20, (e + 119) as nat);
        split_pow2(17 + 2 * m, (e + 139) as nat, (e - 1) as nat, 140);
        assert(2 * (((17 + 2 * m) * 0x8_0000) * q) == ((17 + 2 * m) * 0x10_0000) * q)
            by (nonlinear_arith);
        assert(e4m3_units(i) == (8 + m) * u);
        assert(e4m3_units(i + 1) == (9 + m) * u) by {
            if m == 7 {
                assert((i + 1) / 8 == e + 1);
                split_pow2(8, e, 1, (e - 1) as nat);
                assert(8 * pow2(e) == 16 * u);
            } else {
                assert((i + 1) / 8 == e);
            }
        }
        assert(((8 + m) * u) * p + ((9 + m) * u) * p == ((17 + 2 * m) * u) * p)
            by (nonlinear_arith);
    }
}

/// The next pattern stands for a larger number.
proof fn next_is_larger(a: int)
    requires
        0 <= a,
    ensures
        magnitude(a) < magnitude(a + 1),
{
    let e = a / 0x80_0000;
    let m = a % 0x80_0000;
    lemma2_to64();
    if e >= 1 {
        lemma_pow2_pos((e - 1) as nat);
        let p = pow2((e - 1) as nat);
        if m < 0x7F_FFFF {
            assert((a + 1) / 0x80_0000 == e);
            assert((0x80_0000 + m) * p < (0x80_0000 + m + 1) * p) by (nonlinear_arith)
                requires
                    p > 0,
            ;
        } else {
            assert((a + 1) / 0x80_0000 == e + 1);
            split_pow2(0x80_0000, e as nat, 1, (e - 1) as nat);
            assert((0x80_0000 + m) * p < 0x100_0000 * p) by (nonlinear_arith)
                requires
                    p > 0,
                    m == 0x7F_FFFF,
            ;
        }
    } else if m == 0x7F_FFFF {
        assert(0x80_0000 * pow2(0) == 0x80_0000);
    }
}

/// Patterns order as the numbers do.
pub proof fn patterns_order_numbers(a: int, b: int)
    requires
        0 <= a,
        0 <= b,
    ensures
        a < b <==> magnitude(a) < magnitude(b),
{
    if a < b {
        larger_pattern(a, b);
    } else if b < a {
        larger_pattern(b, a);
    }
}

proof fn larger_pattern(a: int, b: int)
    requires
        0 <= a < b,
    ensures
        magnitude(a) < magnitude(b),
    decreases b - a,
{
    next_is_larger(b - 1);
    if a < b - 1 {
        larger_pattern(a, b - 1);
    }
}

/// How far a number is from number `i`.
pub open spec fn distance(m: int, i: int) -> int {
    if m < e4m3_magnitude(i) {
        e4m3_magnitude(i) - m
    } else {
        m - e4m3_magnitude(i)
    }
}

/// Number `i` is the nearest to the size `m`; of two that are as near it is the even one.
pub open spec fn is_nearest(m: int, i: int) -> bool {
    &&& 0 <= i <= 126
    &&& forall|j: int|
        0 <= j <= 126 && j != i ==> #[trigger] distance(m, j) > distance(m, i) || (distance(m, j)
            == distance(m, i) && i % 2 == 0)
}

/// Higher numbers are larger.
proof fn numbers_rise(i: int, j: int)
    requires
        0 <= i < j <= 126,
    ensures
        e4m3_magnitude(i) < e4m3_magnitude(j),
        e4m3_bits(i) < e4m3_bits(j),
{
    pattern_has_the_size(i);
    pattern_has_the_size(j);
    patterns_order_numbers(e4m3_bits(i), e4m3_bits(j));
}

/// Number `i` is at most, and the next above, the size `m`.
spec fn below(m: int, i: int) -> bool {
    &&& 0 <= i <= 126
    &&& e4m3_magnitude(i) <= m
    &&& i < 126 ==> m < e4m3_magnitude(i + 1)
}

/// The numbers that are not next to a size are further from it.
proof fn neighbours_are_nearest(m: int, i: int, j: int)
    requires
        below(m, i),
        i == 126 ==> m == e4m3_magnitude(126),
        0 <= j <= 126,
    ensures
        j < i ==> distance(m, j) > distance(m, i),
        j > i + 1 ==> distance(m, j) > distance(m, i + 1),
{
    if j < i {
        numbers_rise(j, i);
    } else if j > i + 1 {
        numbers_rise(i + 1, j);
    }
}

/// The pattern of number `i`, which is `i` mod 8 eighths above a power of two.
pub fn e4m3fn_value(i: i32) -> (r: u32)
    requires
        0 <= i <= 126,
    ensures
        r == e4m3_bits(i as int),
        magnitude(r as int) == e4m3_magnitude(i as int),
{
    proof {
        pattern_has_the_size(i as int);
    }
    if i == 0 {
        0
    } else if i == 1 {
        0x3B00_0000
    } else if i < 4 {
        0x3B80_0000 + (i - 2) as u32 * 0x40_0000
    } else if i < 8 {
        0x3C00_0000 + (i - 4) as u32 * 0x20_0000
    } else {
        0x3C00_0000 + i as u32 * 0x10_0000
    }
}

/// The pattern half way to the next number.
fn half_way(i: i32) -> (r: u32)
    requires
        0 <= i < 126,
    ensures
        r == e4m3_half(i as int),
{
    if i == 0 {
        0x3A80_0000
    } else if i == 1 {
        0x3B40_0000
    } else if i < 4 {
        0x3BA0_0000 + (i - 2) as u32 * 0x40_0000
    } else if i < 8 {
        0x3C10_0000 + (i - 4) as u32 * 0x20_0000
    } else {
        0x3C08_0000 + i as u32 * 0x10_0000
    }
}

/// The nearest number to a size of at most 448.
fn nearest(ax: u32) -> (best: i32)
    requires
        ax <= E4M3_MAX,
    ensures
        is_nearest(magnitude(ax as int) as int, best as int),
{
    let ghost m = magnitude(ax as int) as int;
    let mut lo: i32 = 0;
    let mut hi: i32 = 126;
    proof {
        pattern_has_the_size(0);
        pattern_has_the_size(126);
        patterns_order_numbers(e4m3_bits(126), ax as int);
        assert(e4m3_magnitude(0) == 0) by (nonlinear_arith)
            requires
                e4m3_magnitude(0) == e4m3_units(0) * pow2(140),
                e4m3_units(0) == 0,
        ;
    }
    while lo < hi
        invariant
            0 <= lo <= hi <= 126,
            m == magnitude(ax as int),
            e4m3_magnitude(lo as int) <= m,
            hi < 126 ==> m < e4m3_magnitude(hi + 1),
        decreases hi - lo,
    {
        let mid: i32 = (lo + hi + 1) / 2;
        proof {
            pattern_has_the_size(mid as int);
            patterns_order_numbers(ax as int, e4m3_bits(mid as int));
        }
        if e4m3fn_value(mid) <= ax {
            lo = mid;
        } else {
            hi = mid - 1;
        }
    }
    let ghost i = lo as int;
    assert(below(m, i));
    assert forall|j: int| 0 <= j <= 126 implies (j < i ==> #[trigger] distance(m, j) > distance(
        m,
        i,
    )) && (j > i + 1 ==> distance(m, j) > distance(m, i + 1)) by {
        neighbours_are_nearest(m, i, j);
    }
    if lo == 126 {
        return lo;
    }
    let half: u32 = half_way(lo);
    proof {
        half_is_half_way(i);
        patterns_order_numbers(half as int, ax as int);
        patterns_order_numbers(ax as int, half as int);
        numbers_rise(i, i + 1);
        assert(distance(m, i) == m - e4m3_magnitude(i));
        assert(distance(m, i + 1) == e4m3_magnitude(i + 1) - m);
    }
    if ax > half || (ax == half && lo % 2 != 0) {
        lo + 1
    } else {
        lo
    }
}

/// A number is negative: below zero, which minus zero is not.
pub open spec fn is_negative(x: u32) -> bool {
    !is_nan(x) && x > 0x8000_0000
}

/// The pattern of a number's size, cut to 448. What is not a number counts as 448.
pub open spec fn clamped(x: u32) -> int {
    if is_nan(x) || x % 0x8000_0000 > E4M3_MAX {
        E4M3_MAX as int
    } else {
        x as int % 0x8000_0000
    }
}

/// A pattern with the sign of `x`.
pub open spec fn with_sign_of(x: u32, b: int) -> int {
    if is_negative(x) {
        b + 0x8000_0000
    } else {
        b
    }
}

/// Rounds a number to the nearest eight-bit one, keeping its sign.
pub fn e4m3fn_dequant(x: u32) -> (r: u32)
    ensures
        exists|i: int|
            #[trigger] is_nearest(magnitude(clamped(x)) as int, i) && r == with_sign_of(
                x,
                e4m3_bits(i),
            ),
{
    let nan: bool = float_is_nan(x);
    let a: u32 = x % 0x8000_0000;
    let ax: u32 = if nan || a > E4M3_MAX {
        E4M3_MAX
    } else {
        a
    };
    let best: i32 = nearest(ax);
    let v: u32 = e4m3fn_value(best);
    proof {
        assert(ax == clamped(x));
        assert(is_nearest(magnitude(clamped(x)) as int, best as int));
        pattern_has_the_size(best as int);
    }
    if !nan && x > 0x8000_0000 {
        v + 0x8000_0000
    } else {
        v
    }
}

/// There is one nearest number.
pub proof fn nearest_is_unique(m: int, i: int, j: int)
    requires
        is_nearest(m, i),
        is_nearest(m, j),
    ensures
        i == j,
{
    if i != j {
        assert(distance(m, j) >= distance(m, i));
        assert(distance(m, i) >= distance(m, j));
        let (a, b) = if i < j {
            (i, j)
        } else {
            (j, i)
        };
        assert(b - a >= 2);
        numbers_rise(a, a + 1);
        numbers_rise(a + 1, b);
        assert(distance(m, a + 1) >= distance(m, a));
    }
}

/// Rounding a number that needs none keeps it.
pub proof fn rounding_keeps_its_numbers(i: int, j: int)
    requires
        0 <= i <= 126,
        is_nearest(magnitude(e4m3_bits(i)) as int, j),
    ensures
        j == i,
{
    pattern_has_the_size(i);
    let m = magnitude(e4m3_bits(i)) as int;
    assert(distance(m, i) == 0);
    if j != i {
        assert(distance(m, i) >= distance(m, j));
        if i < j {
            numbers_rise(i, j);
        } else {
            numbers_rise(j, i);
        }
    }
}

/// The larger of two sizes rounds to the larger number, or to the same.
pub proof fn rounding_keeps_order(m: int, n: int, i: int, j: int)
    requires
        m <= n,
        is_nearest(m, i),
        is_nearest(n, j),
    ensures
        i <= j,
{
    if j < i {
        numbers_rise(j, i);
        assert(distance(m, j) >= distance(m, i));
        assert(distance(n, i) >= distance(n, j));
        if m == n {
            nearest_is_unique(m, i, j);
        }
    }
}

} // verus!
