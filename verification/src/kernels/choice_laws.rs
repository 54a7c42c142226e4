//! What is chosen where the choice is not a plain one: lists that are not full, the end of the
//! range of eight-bit numbers, and the fields of a block.
use vstd::arithmetic::power2::{lemma2_to64, lemma_pow2_adds, pow2};
use vstd::prelude::*;

use crate::bytes::le_nat;
use crate::kernels::attention::{
    comp_row, decode_raw_rows, decode_scores, decode_visible, online_count, RawCache, Row,
    MASK_FLOOR,
};
use crate::kernels::float::{is_nan, key};
use crate::kernels::fp8::{
    clamped, distance, e4m3_magnitude, e4m3_units, is_nearest, magnitude, patterns_order_numbers,
    with_sign_of, E4M3_MAX,
};
use crate::kernels::indexer::{is_chosen, zero_filled};
use crate::kernels::moe::{chosen, iq2_dot, q2k_dot, six_places};
use crate::kernels::quantize::{
    iq2_term, q2k_offset_term, q2k_term, total, IQ2_SIGNS, IQ2_XXS_GRID,
};
use crate::kernels::reduce::{halving_finds_the_largest, peak_of, peaks_from};
use crate::kernels::utils::widened;
use crate::pow2::is_pow2;

verus! {

/// A number larger than 448 is taken for 448, whatever its sign, and so is what is no number. The
/// sign comes back.
pub proof fn numbers_end_at_448(x: u32, b: int)
    requires
        0 <= b < 0x8000_0000,
    ensures
        magnitude(E4M3_MAX as int) == 448 * pow2(149),
        is_nan(x) ==> clamped(x) == E4M3_MAX,
        !is_nan(x) ==> {
            let m = magnitude(x as int % 0x8000_0000);
            magnitude(clamped(x)) == if m > 448 * pow2(149) {
                448 * pow2(149)
            } else {
                m
            }
        },
        with_sign_of(x, b) == b || with_sign_of(x, b) == b + 0x8000_0000,
        with_sign_of(x, b) == b + 0x8000_0000 <==> !is_nan(x) && key(x) < 0,
{
    lemma2_to64();
    lemma_pow2_adds(15, 134);
    let p = pow2(134) as int;
    assert(0x43E0_0000int / 0x80_0000 == 135 && 0x43E0_0000int % 0x80_0000 == 0x60_0000);
    assert(magnitude(0x43E0_0000) == 0xE0_0000 * p);
    assert(pow2(149) == 0x8000 * p);
    patterns_order_numbers(E4M3_MAX as int, x as int % 0x8000_0000);
    if x as int % 0x8000_0000 != E4M3_MAX {
        patterns_order_numbers(x as int % 0x8000_0000, E4M3_MAX as int);
    }
}

/// The eight-bit numbers rise from 0 in steps of `2^-9`; behind each eight of them but the first
/// the steps are twice as wide. The last is 448.
pub proof fn eight_bit_numbers_rise(i: int)
    requires
        0 <= i < 126,
    ensures
        e4m3_magnitude(0) == 0,
        512 * e4m3_magnitude(1) == pow2(149),
        e4m3_magnitude(126) == 448 * pow2(149),
        i < 8 ==> e4m3_magnitude(i + 1) == e4m3_magnitude(i) + e4m3_magnitude(1),
        i >= 8 ==> e4m3_magnitude(i + 1) == e4m3_magnitude(i) + e4m3_magnitude(1) * pow2(
            (i / 8 - 1) as nat,
        ),
{
    lemma2_to64();
    lemma_pow2_adds(9, 140);
    let p = pow2(140) as int;
    assert(pow2(149) == 512 * p);
    assert(e4m3_units(0) == 0 && e4m3_units(1) == 1);
    assert(e4m3_units(126) == 14 * 16384);
    assert(e4m3_magnitude(126) == 448 * (512 * p));
    if i >= 8 {
        let q = pow2((i / 8 - 1) as nat) as int;
        assert(e4m3_units(i) == (8 + i % 8) * q);
        assert(e4m3_units(i + 1) == e4m3_units(i) + q) by {
            if (i + 1) % 8 == 0 {
                assert((i + 1) / 8 == i / 8 + 1);
                lemma_pow2_adds(1, (i / 8 - 1) as nat);
                assert(pow2((i / 8) as nat) == 2 * q);
                assert(8 * (2 * q) == (8 + 7) * q + q) by (nonlinear_arith);
            } else {
                assert((i + 1) / 8 == i / 8 && (i + 1) % 8 == i % 8 + 1);
                assert((8 + (i % 8 + 1)) * q == (8 + i % 8) * q + q) by (nonlinear_arith);
            }
        }
        let u = e4m3_units(i) as int;
        assert((u + q) * p == u * p + p * q) by (nonlinear_arith);
    } else {
        let u = e4m3_units(i) as int;
        if i == 7 {
            assert(e4m3_units(8) == 8 * pow2(0));
        }
        assert(e4m3_units(i + 1) == u + 1);
        assert((u + 1) * p == u * p + p) by (nonlinear_arith);
    }
}

/// Half-way between two eight-bit numbers, the even one is nearest.
pub proof fn ties_go_to_the_even_number(m: int, i: int, j: int)
    requires
        0 <= i < 126,
        distance(m, i) == distance(m, i + 1),
        is_nearest(m, j),
        j == i || j == i + 1,
    ensures
        j % 2 == 0,
{
    assert(distance(m, i) == distance(m, i + 1));
}

/// The largest number of a block is one of its numbers, or zero where all of them are.
pub proof fn padding_is_never_the_largest(x: Seq<u32>, at: int, n: int, size: nat, late: bool)
    requires
        0 <= n <= size,
        is_pow2(size as int),
        forall|i: int| 0 <= i < n ==> !is_nan(#[trigger] x[at + i]),
    ensures
        ({
            let peak = peak_of(peaks_from(x, at, n, size), late);
            &&& forall|i: int|
                0 <= i < n ==> key(#[trigger] x[at + i]) <= key(peak.abs) && -key(x[at + i])
                    <= key(peak.abs)
            &&& peak.val == 0 || exists|i: int| 0 <= i < n && #[trigger] x[at + i] == peak.val
            &&& key(peak.abs) == if key(peak.val) < 0 {
                -key(peak.val)
            } else {
                key(peak.val)
            }
        }),
{
    let s = peaks_from(x, at, n, size);
    assert forall|i: int| 0 <= i < s.len() implies !is_nan((#[trigger] s[i]).abs) by {
        if i < n {
            assert(!is_nan(x[at + i]));
        }
    }
    halving_finds_the_largest(s, late);
    let peak = peak_of(s, late);
    let j = choose|j: int| 0 <= j < s.len() && s[j] == peak;
    assert forall|i: int| 0 <= i < n implies key(#[trigger] x[at + i]) <= key(peak.abs) && -key(
        x[at + i],
    ) <= key(peak.abs) by {
        assert(!is_nan(x[at + i]));
        assert(key(s[i].abs) <= key(peak.abs));
    }
    if j < n {
        assert(!is_nan(x[at + j]));
        assert(x[at + j] == peak.val);
    }
}

/// The floor of masks is minus the 32-bit number nearest to ten to the power of 20: a row is open
/// where its mask is above it.
pub proof fn masks_open_above_their_floor(mask: Seq<u32>, at: int, c: int)
    requires
        !is_nan(mask[at + c]),
    ensures
        magnitude(MASK_FLOOR as int % 0x8000_0000) == 100000002004087734272int * pow2(149),
        MASK_FLOOR >= 0x8000_0000,
        comp_row(mask, true, at, c) == if key(mask[at + c]) > key(MASK_FLOOR) {
            Row::Comp(c as u32)
        } else {
            Row::Closed(c as u32)
        },
{
    lemma2_to64();
    lemma_pow2_adds(32, 11);
    lemma_pow2_adds(43, 149);
    assert(pow2(43) == 8796093022208);
    let p = pow2(149) as int;
    assert(0x60AD_78ECint / 0x80_0000 == 193 && 0x60AD_78ECint % 0x80_0000 == 0x2D_78EC);
    assert(magnitude(0x60AD_78EC) == 11368684 * pow2(192));
    assert(pow2(192) == 8796093022208 * p);
    assert(11368684 * (8796093022208 * p) == 100000002004087734272int * p) by (nonlinear_arith);
    assert(MASK_FLOOR as int % 0x8000_0000 == 0x60AD_78EC);
}

/// A list of rows that is too short is filled up with row 0.
pub proof fn short_lists_are_filled_up(list: Seq<u32>, k: int, i: int)
    requires
        0 <= i < k,
    ensures
        zero_filled(list, k).len() == k,
        i < list.len() ==> zero_filled(list, k)[i] == list[i],
        i >= list.len() ==> zero_filled(list, k)[i] == 0,
{
}

/// A row is chosen where it is on the list of its token; lists lie one behind the other.
pub proof fn chosen_rows_are_on_the_list(topk: Seq<u32>, t: int, top_k: int, c: u32)
    requires
        0 <= t,
        0 <= top_k,
        (t + 1) * top_k <= topk.len(),
    ensures
        is_chosen(topk, t, top_k, c as int) <==> topk.subrange(
            top_k * t,
            top_k * t + top_k,
        ).contains(c),
{
    assert(t * top_k == top_k * t && (t + 1) * top_k == top_k * t + top_k && 0 <= top_k * t)
        by (nonlinear_arith)
        requires
            0 <= t,
            0 <= top_k,
    ;
    let list = topk.subrange(top_k * t, top_k * t + top_k);
    if is_chosen(topk, t, top_k, c as int) {
        let i = choose|i: int| 0 <= i < top_k && #[trigger] topk[t * top_k + i] == c;
        assert(list[i] == c);
    }
    if list.contains(c) {
        let i = choose|i: int| 0 <= i < list.len() && list[i] == c;
        assert(topk[t * top_k + i] == c);
    }
}

/// Where fewer than six experts are selected, the other places say so by -1.
pub proof fn places_without_an_expert_say_so(list: Seq<i32>, e: u32, i: int)
    requires
        0 <= i < 6,
    ensures
        six_places(list).len() == 6,
        i < list.len() ==> six_places(list)[i] == list[i],
        i >= list.len() ==> six_places(list)[i] == -1,
        e == u32::MAX ==> chosen(e) == -1,
        e <= i32::MAX ==> chosen(e) == e,
{
}

/// A single token in a layer without a ratio attends to all rows that are there: those of the
/// window, from the first on round the ring, and every compressed one.
pub proof fn single_tokens_see_all(cache: RawCache, t: int, n_comp: int, window: int, r: int)
    requires
        cache.n_tokens == 1,
        0 <= n_comp,
        0 < cache.raw_cap,
        0 <= r < cache.n_raw <= 256,
    ensures
        decode_visible(cache, t, n_comp, 0) == n_comp,
        decode_raw_rows(cache, t, window, 0).len() == cache.n_raw,
        decode_raw_rows(cache, t, window, 0)[r] == Row::Raw(
            ((cache.raw_start + r) % cache.raw_cap as int) as u32,
        ),
        decode_scores(cache, t, n_comp, window, 0) == cache.n_raw + n_comp,
{
}

/// As many rows are selected as are asked for, as there are and as there is room for.
pub proof fn selections_are_as_long_as_they_can_be(top_k: int, limit: int)
    ensures
        online_count(top_k, limit) <= top_k,
        online_count(top_k, limit) <= limit,
        online_count(top_k, limit) <= 512,
        online_count(top_k, limit) == top_k || online_count(top_k, limit) == limit || online_count(
            top_k,
            limit,
        ) == 512,
{
}

/// A block of two-bit codes starts with its scale; a block of two-bit values ends with its two
/// factors, of the values and of their offsets. A block of inputs starts with its scale. All 256
/// products of a block are added up, and the sums of all sixteen groups.
pub proof fn blocks_hold_their_factors(blk: Seq<u8>, q8k: Seq<u8>)
    ensures
        iq2_dot(blk, q8k).xd == widened(le_nat(blk, 0, 2) as u16),
        iq2_dot(blk, q8k).yd == le_nat(q8k, 0, 4) as u32,
        iq2_dot(blk, q8k).sum == total(
            iq2_term(blk, q8k, IQ2_XXS_GRID@, IQ2_SIGNS@),
            256,
        ) as i32,
        q2k_dot(blk, q8k).xd == widened(le_nat(blk, 80, 2) as u16),
        q2k_dot(blk, q8k).xdmin == widened(le_nat(blk, 82, 2) as u16),
        q2k_dot(blk, q8k).yd == iq2_dot(blk, q8k).yd,
        q2k_dot(blk, q8k).isum == total(q2k_term(blk, q8k), 256) as i32,
        q2k_dot(blk, q8k).summs == total(q2k_offset_term(blk, q8k), 16) as i32,
{
}

} // verus!
