//! The tables of quantised weights are sound, and blocks of activations read back as written.
use vstd::prelude::*;

use crate::bytes::{le_bytes, le_nat, le_nat_same, le_roundtrip};
use crate::kernels::quantize::{
    digit, group_sum, iq2_pattern, iq2_sign, iq2_usable, le_signed16, negatable, ones, q8k_bytes,
    q8k_sum, q8k_value, signed16, sums_bytes, total, total_stretch, unpacked, unsigned8, IQ2_SIGNS,
    IQ2_XXS_GRID,
};

verus! {

/// The bits of a byte, added up.
spec fn bits(b: u8) -> int {
    b % 2 + (b / 2) % 2 + (b / 4) % 2 + (b / 8) % 2 + (b / 16) % 2 + (b / 32) % 2 + (b / 64) % 2 + b
        / 128
}

proof fn halves(v: nat, k: nat)
    requires
        v < 256,
        k < 7,
    ensures
        digit(v, 2, k + 1) == digit(v / 2, 2, k),
{
}

proof fn ones_unfold(b: u8)
    ensures
        ones(b) == bits(b),
{
    let v = b as nat;
    halves(v, 0);
    halves(v, 1);
    halves(v / 2, 0);
    halves(v, 2);
    halves(v / 2, 1);
    halves(v / 4, 0);
    halves(v, 3);
    halves(v / 2, 2);
    halves(v / 4, 1);
    halves(v / 8, 0);
    halves(v, 4);
    halves(v / 2, 3);
    halves(v / 4, 2);
    halves(v / 8, 1);
    halves(v / 16, 0);
    halves(v, 5);
    halves(v / 2, 4);
    halves(v / 4, 3);
    halves(v / 8, 2);
    halves(v / 16, 1);
    halves(v / 32, 0);
    halves(v, 6);
    halves(v / 2, 5);
    halves(v / 4, 4);
    halves(v / 8, 3);
    halves(v / 16, 2);
    halves(v / 32, 1);
    halves(v / 64, 0);
    let f = |k: int| digit(b as nat, 2, k as nat) as int;
    assert(total(f, 8) == f(0) + f(1) + f(2) + f(3) + f(4) + f(5) + f(6) + f(7)) by {
        reveal_with_fuel(total, 9);
    }
}

/// Unpacked signs have an even number of bits set.
pub proof fn unpacked_signs_are_even(sign: u8)
    ensures
        ones(unpacked(sign)) % 2 == 0,
        unpacked(sign) % 128 == sign % 128,
{
    ones_unfold(sign);
    ones_unfold(unpacked(sign));
    let r = unpacked(sign);
    if ones(sign) % 2 != 0 {
        assert(bits(r) == bits(sign) + 1 || bits(r) == bits(sign) - 1) by {
            if sign < 128 {
                assert(r == sign + 128);
                assert(r / 64 == sign / 64 + 2);
            } else {
                assert(r == sign - 128);
            }
        }
    }
}

spec fn sign_sound(s: u8, i: int) -> bool {
    s % 128 == i && bits(s) % 2 == 0
}

/// The `n` entries of the sign table from `from` on are their own number with an even number of
/// bits.
spec fn signs_sound(from: nat, n: nat) -> bool
    decreases n,
{
    n == 0 || (signs_sound(from, (n - 1) as nat) && sign_sound(
        IQ2_SIGNS@[from + n - 1],
        from + n - 1,
    ))
}

proof fn first_signs_sound()
    ensures
        signs_sound(0, 32),
{
    reveal_with_fuel(signs_sound, 33);
}

proof fn second_signs_sound()
    ensures
        signs_sound(32, 32),
{
    reveal_with_fuel(signs_sound, 33);
}

proof fn third_signs_sound()
    ensures
        signs_sound(64, 32),
{
    reveal_with_fuel(signs_sound, 33);
}

proof fn fourth_signs_sound()
    ensures
        signs_sound(96, 32),
{
    reveal_with_fuel(signs_sound, 33);
}

proof fn sign_at(from: nat, n: nat, i: int)
    requires
        signs_sound(from, n),
        0 <= i < n,
    ensures
        sign_sound(IQ2_SIGNS@[from + i], from + i),
    decreases n,
{
    if i < n - 1 {
        sign_at(from, (n - 1) as nat, i);
    }
}

/// Entry `i` of the sign table has the low seven bits of `i` and an even number of bits, so that
/// it unpacks to itself.
pub proof fn sign_table_is_unpacked(i: int)
    requires
        0 <= i < 128,
    ensures
        IQ2_SIGNS@[i] as int % 128 == i,
        ones(IQ2_SIGNS@[i]) % 2 == 0,
        unpacked(IQ2_SIGNS@[i]) == IQ2_SIGNS@[i],
{
    if i < 32 {
        first_signs_sound();
        sign_at(0, 32, i);
    } else if i < 64 {
        second_signs_sound();
        sign_at(32, 32, i - 32);
    } else if i < 96 {
        third_signs_sound();
        sign_at(64, 32, i - 64);
    } else {
        fourth_signs_sound();
        sign_at(96, 32, i - 96);
    }
    ones_unfold(IQ2_SIGNS@[i]);
}

/// A weight of the pattern table: 8, 25 or 43.
spec fn is_weight(b: int) -> bool {
    b == 8 || b == 25 || b == 43
}

spec fn entry_sound(g: int) -> bool {
    &&& is_weight(g % 0x100)
    &&& is_weight((g / 0x100) % 0x100)
    &&& is_weight((g / 0x1_0000) % 0x100)
    &&& is_weight((g / 0x100_0000) % 0x100)
    &&& is_weight((g / 0x1_0000_0000) % 0x100)
    &&& is_weight((g / 0x100_0000_0000) % 0x100)
    &&& is_weight((g / 0x1_0000_0000_0000) % 0x100)
    &&& is_weight((g / 0x100_0000_0000_0000) % 0x100)
}

spec fn entries_sound(from: nat, n: nat) -> bool
    decreases n,
{
    n == 0 || (entries_sound(from, (n - 1) as nat) && entry_sound(
        IQ2_XXS_GRID@[from + n - 1] as int,
    ))
}

proof fn first_entries_sound()
    ensures
        entries_sound(0, 32),
{
    reveal_with_fuel(entries_sound, 33);
}

proof fn second_entries_sound()
    ensures
        entries_sound(32, 32),
{
    reveal_with_fuel(entries_sound, 33);
}

proof fn third_entries_sound()
    ensures
        entries_sound(64, 32),
{
    reveal_with_fuel(entries_sound, 33);
}

proof fn fourth_entries_sound()
    ensures
        entries_sound(96, 32),
{
    reveal_with_fuel(entries_sound, 33);
}

proof fn fifth_entries_sound()
    ensures
        entries_sound(128, 32),
{
    reveal_with_fuel(entries_sound, 33);
}

proof fn sixth_entries_sound()
    ensures
        entries_sound(160, 32),
{
    reveal_with_fuel(entries_sound, 33);
}

proof fn seventh_entries_sound()
    ensures
        entries_sound(192, 32),
{
    reveal_with_fuel(entries_sound, 33);
}

proof fn eighth_entries_sound()
    ensures
        entries_sound(224, 32),
{
    reveal_with_fuel(entries_sound, 33);
}

proof fn entry_at(from: nat, n: nat, i: int)
    requires
        entries_sound(from, n),
        0 <= i < n,
    ensures
        entry_sound(IQ2_XXS_GRID@[from + i] as int),
    decreases n,
{
    if i < n - 1 {
        entry_at(from, (n - 1) as nat, i);
    }
}

/// Every weight in the pattern table is 8, 25 or 43.
pub proof fn pattern_table_weights(a: int, k: int)
    requires
        0 <= a < 256,
        0 <= k < 8,
    ensures
        ({
            let b = digit(IQ2_XXS_GRID@[a] as nat, 256, k as nat);
            b == 8 || b == 25 || b == 43
        }),
{
    if a < 32 {
        first_entries_sound();
        entry_at(0, 32, a);
    } else if a < 64 {
        second_entries_sound();
        entry_at(32, 32, a - 32);
    } else if a < 96 {
        third_entries_sound();
        entry_at(64, 32, a - 64);
    } else if a < 128 {
        fourth_entries_sound();
        entry_at(96, 32, a - 96);
    } else if a < 160 {
        fifth_entries_sound();
        entry_at(128, 32, a - 128);
    } else if a < 192 {
        sixth_entries_sound();
        entry_at(160, 32, a - 160);
    } else if a < 224 {
        seventh_entries_sound();
        entry_at(192, 32, a - 192);
    } else {
        eighth_entries_sound();
        entry_at(224, 32, a - 224);
    }
    digits_unfold(IQ2_XXS_GRID@[a], k);
}

proof fn digits_unfold(g: u64, k: int)
    requires
        0 <= k < 8,
        entry_sound(g as int),
    ensures
        is_weight(digit(g as nat, 256, k as nat) as int),
{
    reveal_with_fuel(digit, 9);
}

/// Every block of two-bit weights can be used with the two tables.
pub proof fn tables_are_usable(blk: Seq<u8>)
    ensures
        iq2_usable(blk, IQ2_XXS_GRID@, IQ2_SIGNS@),
{
    assert forall|i: int| 0 <= i < 256 implies negatable(
        #[trigger] iq2_pattern(blk, IQ2_XXS_GRID@, i),
        iq2_sign(blk, IQ2_SIGNS@, i),
    ) by {
        let a = blk[crate::kernels::quantize::iq2_group(i) + (i % 32) / 8] as int;
        let sign = iq2_sign(blk, IQ2_SIGNS@, i);
        assert forall|k: int|
            0 <= k < 8 && #[trigger] digit(unpacked(sign) as nat, 2, k as nat) == 1 implies digit(
            IQ2_XXS_GRID@[a] as nat,
            256,
            k as nat,
        ) != 128 by {
            pattern_table_weights(a, k);
        }
    }
}

proof fn group_sum_bound(qs: Seq<i8>, j: int)
    ensures
        -2048 <= group_sum(qs, j) <= 2032,
{
    reveal_with_fuel(total, 17);
}

proof fn sums_len(qs: Seq<i8>, n: nat)
    ensures
        sums_bytes(qs, n).len() == 2 * n,
    decreases n,
{
    reveal_with_fuel(le_bytes, 3);
    if n > 0 {
        sums_len(qs, (n - 1) as nat);
    }
}

proof fn sum_at(qs: Seq<i8>, n: nat, j: int)
    requires
        0 <= j < n,
    ensures
        sums_bytes(qs, n).len() == 2 * n,
        sums_bytes(qs, n)[2 * j] == le_signed16(group_sum(qs, j))[0],
        sums_bytes(qs, n)[2 * j + 1] == le_signed16(group_sum(qs, j))[1],
    decreases n,
{
    reveal_with_fuel(le_bytes, 3);
    sums_len(qs, n);
    sums_len(qs, (n - 1) as nat);
    if j < n - 1 {
        sum_at(qs, (n - 1) as nat, j);
    }
}

/// A block of activations reads back as it was written: its scale, its numbers and the sums of
/// their groups.
pub proof fn activations_read_back(d: u32, qs: Seq<i8>)
    requires
        qs.len() == 256,
    ensures
        q8k_bytes(d, qs).len() == 292,
        le_nat(q8k_bytes(d, qs), 0, 4) == d,
        forall|i: int| 0 <= i < 256 ==> #[trigger] q8k_value(q8k_bytes(d, qs), i) == qs[i],
        forall|j: int|
            0 <= j < 16 ==> #[trigger] q8k_sum(q8k_bytes(d, qs), j) == group_sum(qs, j),
{
    let b = q8k_bytes(d, qs);
    assert(crate::bytes::pow256(4) == 0x1_0000_0000) by {
        reveal_with_fuel(crate::bytes::pow256, 5);
    }
    assert(crate::bytes::pow256(2) == 0x1_0000) by {
        reveal_with_fuel(crate::bytes::pow256, 3);
    }
    le_roundtrip(d as nat, 4);
    sums_len(qs, 16);
    le_nat_same(b, 0, le_bytes(d as nat, 4), 0, 4);
    assert forall|i: int| 0 <= i < 256 implies #[trigger] q8k_value(b, i) == qs[i] by {
        assert(b[4 + i] == unsigned8(qs[i] as int));
    }
    assert forall|j: int| 0 <= j < 16 implies #[trigger] q8k_sum(b, j) == group_sum(qs, j) by {
        let s = group_sum(qs, j);
        group_sum_bound(qs, j);
        let u = (if s < 0 {
            s + 0x1_0000
        } else {
            s
        }) as nat;
        le_roundtrip(u, 2);
        sum_at(qs, 16, j);
        let w = le_signed16(s);
        assert(b[260 + j * 2] == sums_bytes(qs, 16)[2 * j]);
        assert(b[260 + j * 2 + 1] == sums_bytes(qs, 16)[2 * j + 1]);
        assert forall|i: int| 0 <= i < 2 implies #[trigger] b[260 + j * 2 + i] == w[0 + i] by {
            if i == 0 {
                assert(b[260 + j * 2 + 0] == w[0]);
            }
        }
        le_nat_same(b, 260 + j * 2, w, 0, 2);
        assert(signed16(u as int) == s);
    }
}

/// Where the sums of a block are those of its groups, weighing the sums weighs every activation
/// with the weight of its group.
pub proof fn group_sums_weigh_every_activation(qs: Seq<i8>, weights: Seq<int>)
    requires
        qs.len() == 256,
        weights.len() == 16,
    ensures
        total(|j: int| group_sum(qs, j) * weights[j], 16) == total(
            |i: int| qs[i] as int * weights[i / 16],
            256,
        ),
{
    weigh_groups(qs, weights, 16);
}

proof fn weigh_groups(qs: Seq<i8>, weights: Seq<int>, n: nat)
    requires
        qs.len() == 256,
        weights.len() == 16,
        n <= 16,
    ensures
        total(|j: int| group_sum(qs, j) * weights[j], n) == total(
            |i: int| qs[i] as int * weights[i / 16],
            n * 16,
        ),
    decreases n,
{
    let f = |i: int| qs[i] as int * weights[i / 16];
    let h = |j: int| group_sum(qs, j) * weights[j];
    if n > 0 {
        let m = (n - 1) as nat;
        weigh_groups(qs, weights, m);
        let g = |k: int| qs[m * 16 + k] as int;
        let c = weights[m as int];
        assert forall|k: int| 0 <= k < 16 implies #[trigger] f((m * 16) as nat + k) == c * g(k) by {
            let i = m * 16 + k;
            assert(i / 16 == m);
            assert(qs[i] as int * c == c * qs[i] as int) by (nonlinear_arith);
        }
        total_stretch(f, g, (m * 16) as nat, c, 16);
        assert(total(g, 16) == group_sum(qs, m as int));
        assert(h(m as int) == c * total(g, 16)) by {
            let t = group_sum(qs, m as int);
            assert(t * c == c * t) by (nonlinear_arith);
        }
    }
}

} // verus!
