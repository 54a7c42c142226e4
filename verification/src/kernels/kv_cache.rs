//! The ring of raw key rows.
use vstd::prelude::*;

use crate::kernels::utils::{f16_bits_to_f32, f32_to_f16_bits, rounded, written};

verus! {

/// Row `t` of a batch, with 16-bit precision.
pub open spec fn rounded_row(kv: Seq<u32>, t: int, head_dim: int) -> Seq<u32> {
    Seq::new(head_dim as nat, |d: int| rounded(kv[t * head_dim + d]))
}

/// The ring after the first `n` rows of a batch have been stored, each at its position modulo
/// the size of the ring.
pub open spec fn stored(
    raw: Seq<u32>,
    kv: Seq<u32>,
    raw_cap: int,
    pos: int,
    n: nat,
    head_dim: int,
) -> Seq<u32>
    decreases n,
{
    if n == 0 {
        raw
    } else {
        let t = n - 1;
        written(
            stored(raw, kv, raw_cap, pos, t as nat, head_dim),
            ((pos + t) % raw_cap) * head_dim,
            rounded_row(kv, t, head_dim),
        )
    }
}

/// Stores a batch of rows in the ring, with 16-bit precision. Row `t` goes to place
/// `(pos + t) % raw_cap`.
pub fn store_raw_kv_batch(
    kv: &[u32],
    raw: &mut Vec<u32>,
    raw_cap: u32,
    pos: u32,
    n_tokens: u32,
    head_dim: usize,
)
    requires
        raw_cap > 0,
        n_tokens <= raw_cap,
        pos + n_tokens <= u32::MAX,
        n_tokens * head_dim <= kv.len(),
        raw_cap * head_dim <= old(raw).len(),
    ensures
        final(raw)@ == stored(
            old(raw)@,
            kv@,
            raw_cap as int,
            pos as int,
            n_tokens as nat,
            head_dim as int,
        ),
{
    let ghost start = raw@;
    let mut t: u32 = 0;
    while t < n_tokens
        invariant
            t <= n_tokens,
            raw_cap > 0,
            n_tokens <= raw_cap,
            pos + n_tokens <= u32::MAX,
            n_tokens * head_dim <= kv.len(),
            raw_cap * head_dim <= start.len(),
            raw@.len() == start.len(),
            raw@ == stored(
                start,
                kv@,
                raw_cap as int,
                pos as int,
                t as nat,
                head_dim as int,
            ),
        decreases n_tokens - t,
    {
        let ghost before = raw@;
        let row: u32 = (pos + t) % raw_cap;
        proof {
            assert(row * head_dim + head_dim <= raw_cap * head_dim && row * head_dim >= 0)
                by (nonlinear_arith)
                requires
                    row + 1 <= raw_cap,
            ;
            assert(t * head_dim + head_dim <= n_tokens * head_dim && t * head_dim >= 0)
                by (nonlinear_arith)
                requires
                    t + 1 <= n_tokens,
            ;
        }
        assert(raw.len() == raw@.len());
        assert(kv.len() == kv@.len());
        let to: usize = row as usize * head_dim;
        let from: usize = t as usize * head_dim;
        let ghost line = rounded_row(kv@, t as int, head_dim as int);
        let mut d: usize = 0;
        while d < head_dim
            invariant
                d <= head_dim,
                to + head_dim <= raw@.len(),
                to + head_dim <= usize::MAX,
                from + head_dim <= kv.len(),
                raw@.len() == before.len(),
                from == t * head_dim,
                line == rounded_row(kv@, t as int, head_dim as int),
                forall|x: int|
                    0 <= x < raw@.len() ==> #[trigger] raw@[x] == if to <= x < to + d {
                        line[x - to]
                    } else {
                        before[x]
                    },
            decreases head_dim - d,
        {
            raw.set(to + d, f16_bits_to_f32(f32_to_f16_bits(kv[from + d])));
            d = d + 1;
        }
        assert(raw@ =~= written(before, to as int, line));
        t = t + 1;
    }
}

/// Storing a batch in two parts is storing it at once: so a prompt leaves the same ring whether
/// its rows are stored chunk by chunk or one by one.
pub proof fn storing_in_parts(
    raw: Seq<u32>,
    kv: Seq<u32>,
    raw_cap: int,
    pos: int,
    a: nat,
    b: nat,
    head_dim: int,
)
    requires
        head_dim >= 0,
        (a + b) * head_dim <= kv.len(),
    ensures
        stored(raw, kv, raw_cap, pos, a + b, head_dim) == stored(
            stored(raw, kv, raw_cap, pos, a, head_dim),
            kv.skip(a * head_dim),
            raw_cap,
            pos + a,
            b,
            head_dim,
        ),
    decreases b,
{
    if b > 0 {
        let t = b - 1;
        let rest = kv.skip(a * head_dim);
        assert((a + t) * head_dim + head_dim == (a + b) * head_dim && (a + t) * head_dim == a
            * head_dim + t * head_dim && t * head_dim >= 0 && a * head_dim >= 0)
            by (nonlinear_arith)
            requires
                b == t + 1,
                head_dim >= 0,
                t >= 0,
        ;
        storing_in_parts(raw, kv, raw_cap, pos, a, t as nat, head_dim);
        assert(rounded_row(rest, t, head_dim) =~= rounded_row(kv, a + t, head_dim));
        assert(pos + (a + t) == pos + a + t);
    }
}

/// One more row is written after the others, and the ring keeps its size.
proof fn storing_is_incremental(
    raw: Seq<u32>,
    kv: Seq<u32>,
    raw_cap: int,
    pos: int,
    n: nat,
    head_dim: int,
)
    requires
        head_dim >= 0,
    ensures
        stored(raw, kv, raw_cap, pos, n + 1, head_dim) == written(
            stored(raw, kv, raw_cap, pos, n, head_dim),
            ((pos + n) % raw_cap) * head_dim,
            rounded_row(kv, n as int, head_dim),
        ),
        stored(raw, kv, raw_cap, pos, n, head_dim).len() == raw.len(),
    decreases n,
{
    if n > 0 {
        storing_is_incremental(raw, kv, raw_cap, pos, (n - 1) as nat, head_dim);
    }
}

/// Every row of a batch that fits the ring is found at its position, with 16-bit precision.
pub proof fn stored_rows_are_found(
    raw: Seq<u32>,
    kv: Seq<u32>,
    raw_cap: int,
    pos: int,
    n: nat,
    head_dim: int,
    t: int,
    d: int,
)
    requires
        0 < raw_cap,
        n <= raw_cap,
        0 <= pos,
        0 <= t < n,
        0 <= d < head_dim,
        raw_cap * head_dim <= raw.len(),
    ensures
        stored(raw, kv, raw_cap, pos, n, head_dim)[((pos + t) % raw_cap) * head_dim + d]
            == rounded(kv[t * head_dim + d]),
    decreases n,
{
    let last = n - 1;
    let r = (pos + t) % raw_cap;
    let s = (pos + last) % raw_cap;
    storing_is_incremental(raw, kv, raw_cap, pos, last as nat, head_dim);
    assert(0 <= r * head_dim && r * head_dim + head_dim <= raw_cap * head_dim) by (nonlinear_arith)
        requires
            0 <= r < raw_cap,
            head_dim >= 0,
    ;
    if t < last {
        stored_rows_are_found(raw, kv, raw_cap, pos, last as nat, head_dim, t, d);
        different_places(pos + t, pos + last, raw_cap);
        assert(r * head_dim + head_dim <= s * head_dim || s * head_dim + head_dim <= r * head_dim)
            by (nonlinear_arith)
            requires
                r != s,
                head_dim >= 0,
        ;
    }
}

/// Positions less than a ring apart have different places in it.
proof fn different_places(a: int, b: int, cap: int)
    requires
        0 <= a < b < a + cap,
    ensures
        a % cap != b % cap,
{
    if a % cap == b % cap {
        vstd::arithmetic::div_mod::lemma_fundamental_div_mod(a, cap);
        vstd::arithmetic::div_mod::lemma_fundamental_div_mod(b, cap);
        let x = a / cap;
        let y = b / cap;
        assert(false) by (nonlinear_arith)
            requires
                a == cap * x + a % cap,
                b == cap * y + a % cap,
                0 < b - a < cap,
                cap > 0,
        ;
    }
}

/// What is not overwritten stays: a place that no row of the batch goes to is unchanged.
pub proof fn other_rows_stay(
    raw: Seq<u32>,
    kv: Seq<u32>,
    raw_cap: int,
    pos: int,
    n: nat,
    head_dim: int,
    r: int,
    d: int,
)
    requires
        0 < raw_cap,
        0 <= pos,
        0 <= r < raw_cap,
        0 <= d < head_dim,
        raw_cap * head_dim <= raw.len(),
        forall|t: int| 0 <= t < n ==> #[trigger] ((pos + t) % raw_cap) != r,
    ensures
        stored(raw, kv, raw_cap, pos, n, head_dim)[r * head_dim + d] == raw[r * head_dim + d],
    decreases n,
{
    if n > 0 {
        let last = n - 1;
        other_rows_stay(raw, kv, raw_cap, pos, last as nat, head_dim, r, d);
        storing_is_incremental(raw, kv, raw_cap, pos, last as nat, head_dim);
        let s = (pos + last) % raw_cap;
        assert(s != r);
        assert(0 <= r * head_dim && r * head_dim + head_dim <= raw_cap * head_dim)
            by (nonlinear_arith)
            requires
                0 <= r < raw_cap,
                head_dim >= 0,
        ;
        assert(r * head_dim + head_dim <= s * head_dim || s * head_dim + head_dim <= r * head_dim)
            by (nonlinear_arith)
            requires
                r != s,
                head_dim >= 0,
        ;
    }
}

/// Position `q` is one of the last `cap` of the first `end` positions, which a ring of `cap` rows
/// holds when they have been stored.
pub open spec fn in_ring(q: int, end: int, cap: int) -> bool {
    0 <= q < end && end - q <= cap
}

/// A ring keeps the last positions: one that is still among them behind a batch has not changed.
pub proof fn last_positions_stay(
    raw: Seq<u32>,
    kv: Seq<u32>,
    raw_cap: int,
    pos: int,
    n: nat,
    head_dim: int,
    q: int,
    d: int,
)
    requires
        0 < raw_cap,
        0 <= d < head_dim,
        raw_cap * head_dim <= raw.len(),
        q < pos,
        in_ring(q, pos + n, raw_cap),
    ensures
        stored(raw, kv, raw_cap, pos, n, head_dim)[(q % raw_cap) * head_dim + d] == raw[(q
            % raw_cap) * head_dim + d],
{
    assert forall|t: int| 0 <= t < n implies #[trigger] ((pos + t) % raw_cap) != q % raw_cap by {
        different_places(q, pos + t, raw_cap);
    }
    assert(0 <= q % raw_cap < raw_cap);
    other_rows_stay(raw, kv, raw_cap, pos, n, head_dim, q % raw_cap, d);
}

} // verus!
