//! Little-endian numbers in byte sequences.
use vstd::prelude::*;

verus! {

/// The number that the `n` bytes at `at` form, least significant byte first.
pub open spec fn le_nat(d: Seq<u8>, at: int, n: nat) -> nat
    decreases n,
{
    if n == 0 {
        0
    } else {
        d[at] as nat + 256 * le_nat(d, at + 1, (n - 1) as nat)
    }
}

/// The `n` bytes of a number, least significant first.
pub open spec fn le_bytes(v: nat, n: nat) -> Seq<u8>
    decreases n,
{
    if n == 0 {
        Seq::empty()
    } else {
        seq![(v % 256) as u8] + le_bytes(v / 256, (n - 1) as nat)
    }
}

/// 256 to the power of `n`.
pub open spec fn pow256(n: nat) -> nat
    decreases n,
{
    if n == 0 {
        1
    } else {
        256 * pow256((n - 1) as nat)
    }
}

/// `n` bytes hold a number below 256 to the power of `n`.
pub proof fn le_nat_bound(d: Seq<u8>, at: int, n: nat)
    ensures
        le_nat(d, at, n) < pow256(n),
    decreases n,
{
    if n > 0 {
        le_nat_bound(d, at + 1, (n - 1) as nat);
    }
}

/// The number depends on its bytes alone.
pub proof fn le_nat_same(a: Seq<u8>, at: int, b: Seq<u8>, bt: int, n: nat)
    requires
        forall|i: int| 0 <= i < n ==> #[trigger] a[at + i] == b[bt + i],
    ensures
        le_nat(a, at, n) == le_nat(b, bt, n),
    decreases n,
{
    if n > 0 {
        assert(a[at + 0] == b[bt + 0]);
        assert forall|i: int| 0 <= i < n - 1 implies #[trigger] a[at + 1 + i] == b[bt + 1 + i] by {
            assert(a[at + (i + 1)] == b[bt + (i + 1)]);
        }
        le_nat_same(a, at + 1, b, bt + 1, (n - 1) as nat);
    }
}

/// Reading back the bytes of a number gives the number.
pub proof fn le_roundtrip(v: nat, n: nat)
    requires
        v < pow256(n),
    ensures
        le_bytes(v, n).len() == n,
        le_nat(le_bytes(v, n), 0, n) == v,
    decreases n,
{
    if n > 0 {
        let rest = le_bytes(v / 256, (n - 1) as nat);
        let all = le_bytes(v, n);
        le_roundtrip(v / 256, (n - 1) as nat);
        assert(all =~= seq![(v % 256) as u8] + rest);
        le_nat_same(all, 1, rest, 0, (n - 1) as nat);
    }
}

/// Unfolds the little-endian numbers of 2, 4 and 8 bytes.
pub proof fn le_unfold(d: Seq<u8>, at: int)
    ensures
        le_nat(d, at, 2) == d[at] + 256 * d[at + 1],
        le_nat(d, at, 4) == d[at] + 256 * d[at + 1] + 65536 * d[at + 2] + 16777216 * d[at + 3],
        le_nat(d, at, 8) == le_nat(d, at, 4) + 4294967296 * le_nat(d, at + 4, 4),
{
    reveal_with_fuel(le_nat, 9);
}

/// The 16-bit number at `at`.
pub fn u16_le(d: &[u8], at: usize) -> (r: u16)
    requires
        at + 2 <= d.len(),
    ensures
        r == le_nat(d@, at as int, 2),
{
    proof {
        le_unfold(d@, at as int);
    }
    d[at] as u16 + 256 * (d[at + 1] as u16)
}

/// The 32-bit number at `at`.
pub fn u32_le(d: &[u8], at: usize) -> (r: u32)
    requires
        at + 4 <= d.len(),
    ensures
        r == le_nat(d@, at as int, 4),
{
    proof {
        le_unfold(d@, at as int);
    }
    d[at] as u32 + 256 * (d[at + 1] as u32) + 65536 * (d[at + 2] as u32) + 16777216 * (d[at
        + 3] as u32)
}

/// The 64-bit number at `at`.
pub fn u64_le(d: &[u8], at: usize) -> (r: u64)
    requires
        at + 8 <= d.len(),
    ensures
        r == le_nat(d@, at as int, 8),
{
    proof {
        le_unfold(d@, at as int);
    }
    let low: u32 = u32_le(d, at);
    let high: u32 = u32_le(d, at + 4);
    low as u64 + 4294967296 * (high as u64)
}

/// The value of a 32-bit pattern in two's complement.
pub open spec fn signed32(v: nat) -> int {
    if v < 0x8000_0000 {
        v as int
    } else {
        v - 0x1_0000_0000
    }
}

/// The signed 32-bit number at `at`.
pub fn i32_le(d: &[u8], at: usize) -> (r: i32)
    requires
        at + 4 <= d.len(),
    ensures
        r == signed32(le_nat(d@, at as int, 4)),
{
    let v: u32 = u32_le(d, at);
    if v < 0x8000_0000 {
        v as i32
    } else {
        ((v - 0x8000_0000) as i32) + i32::MIN
    }
}

} // verus!
