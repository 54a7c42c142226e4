//! Products of rows of one-byte weights with quantised inputs, block by block, and the division of
//! rows among threads.
use vstd::prelude::*;

use crate::bytes::{le_nat, u16_le};
use crate::kernels::quantize::{
    byte_i32, q8_0_block_len, q8_0_count, signed8, total, total_stretch,
};
use crate::kernels::utils::{f16_bits_to_f32, widened};

verus! {

/// The terms of a product of signed bytes with signed numbers.
pub open spec fn i8_term(a: Seq<u8>, a_at: int, b: Seq<i8>, b_at: int) -> spec_fn(int) -> int {
    |i: int| signed8(a[a_at + i] as int) * b[b_at + i]
}

/// The product of `n` signed bytes with `n` signed numbers.
pub fn dot_i8(a: &[u8], a_at: usize, b: &[i8], b_at: usize, n: usize) -> (r: i32)
    requires
        a_at + n <= a.len(),
        b_at + n <= b.len(),
        n * 16384 <= i32::MAX,
    ensures
        r == total(i8_term(a@, a_at as int, b@, b_at as int), n as nat),
{
    let ghost f = i8_term(a@, a_at as int, b@, b_at as int);
    let mut dot: i32 = 0;
    let mut i: usize = 0;
    while i < n
        invariant
            i <= n,
            a_at + n <= a.len(),
            b_at + n <= b.len(),
            n * 16384 <= i32::MAX,
            f == i8_term(a@, a_at as int, b@, b_at as int),
            dot == total(f, i as nat),
            -(i * 16384) <= dot <= i * 16384,
        decreases n - i,
    {
        let x: i32 = byte_i32(a[a_at + i]);
        let y: i32 = b[b_at + i] as i32;
        assert(-16384 <= x * y <= 16384) by (nonlinear_arith)
            requires
                -128 <= x <= 127,
                -128 <= y <= 127,
        ;
        assert(f(i as int) == x * y);
        dot = dot + x * y;
        i = i + 1;
    }
    dot
}

/// What one block adds to a product: the scale of its weights (as bits), the place of the scale of
/// its inputs, and the product of its numbers.
#[derive(Clone, Copy, Debug, PartialEq, Eq, Structural)]
pub struct Term {
    pub scale: u32,
    pub xscale_at: usize,
    pub dot: i32,
}

/// What block `b` of a row adds, for a row that starts at `w_at` and inputs whose blocks start at
/// block `x_block`.
pub open spec fn block_term(
    w: Seq<u8>,
    w_at: int,
    xq: Seq<i8>,
    x_block: int,
    in_dim: int,
    b: int,
) -> Term {
    Term {
        scale: widened(le_nat(w, w_at + b * 34, 2) as u16),
        xscale_at: (x_block + b) as usize,
        dot: total(
            i8_term(w, w_at + b * 34 + 2, xq, (x_block + b) * 32),
            q8_0_count(in_dim, b) as nat,
        ) as i32,
    }
}

/// Rows of `blocks` blocks hold `in_dim` elements: all blocks but the last are full.
pub open spec fn blocks_hold(blocks: int, in_dim: int) -> bool {
    blocks > 0 ==> (blocks - 1) * 32 <= in_dim
}

/// What the blocks of a row add to its product with a row of inputs.
fn row_terms(w: &[u8], row: u64, xq: &[i8], x_row: u64, in_dim: u64, blocks: u64) -> (terms: Vec<
    Term,
>)
    requires
        blocks_hold(blocks as int, in_dim as int),
        (row + 1) * (blocks * 34) <= w.len(),
        (x_row + 1) * (blocks * 32) <= xq.len(),
    ensures
        terms@ == Seq::new(
            blocks as nat,
            |b: int|
                block_term(w@, row * (blocks * 34), xq@, x_row * blocks, in_dim as int, b),
        ),
{
    let mut terms: Vec<Term> = Vec::new();
    if blocks == 0 {
        assert(terms@ =~= Seq::new(
            blocks as nat,
            |b: int|
                block_term(w@, row * (blocks * 34), xq@, x_row * blocks, in_dim as int, b),
        ));
        return terms;
    }
    proof {
        let wb = blocks * 34;
        let xb = blocks * 32;
        assert((row + 1) * wb == row * wb + wb) by (nonlinear_arith);
        assert((x_row + 1) * xb == x_row * xb + xb) by (nonlinear_arith);
        assert(x_row * (blocks * 32) == (x_row * blocks) * 32) by (nonlinear_arith);
        assert(row <= row * wb && x_row <= x_row * blocks) by (nonlinear_arith)
            requires
                wb >= 1,
                blocks >= 1,
        ;
    }
    let w_at: usize = row as usize * (blocks as usize * 34);
    let x_block: usize = x_row as usize * blocks as usize;
    let n: usize = blocks as usize;
    let mut b: usize = 0;
    while b < n
        invariant
            b <= n,
            n == blocks,
            n > 0,
            blocks_hold(blocks as int, in_dim as int),
            w_at == row * (blocks * 34),
            x_block == x_row * blocks,
            w_at + n * 34 <= w.len(),
            (x_block + n) * 32 <= xq.len(),
            terms@ =~= Seq::new(
                b as nat,
                |b: int|
                    block_term(w@, row * (blocks * 34), xq@, x_row * blocks, in_dim as int, b),
            ),
        decreases n - b,
    {
        let bn: usize = q8_0_block_len(in_dim, b as u64);
        let at: usize = w_at + b * 34;
        let scale: u32 = f16_bits_to_f32(u16_le(w, at));
        let dot: i32 = dot_i8(w, at + 2, xq, (x_block + b) * 32, bn);
        terms.push(Term { scale, xscale_at: x_block + b, dot });
        b = b + 1;
    }
    terms
}

/// What the blocks of output row `row` add for one row of inputs.
pub fn matmul_q8_0_preq_warp8(w: &[u8], xq: &[i8], in_dim: u64, blocks: u64, row: u64) -> (terms:
    Vec<Term>)
    requires
        blocks_hold(blocks as int, in_dim as int),
        (row + 1) * (blocks * 34) <= w.len(),
        blocks * 32 <= xq.len(),
    ensures
        terms@ == Seq::new(
            blocks as nat,
            |b: int| block_term(w@, row * (blocks * 34), xq@, 0, in_dim as int, b),
        ),
{
    assert(0 * blocks == 0) by (nonlinear_arith);
    row_terms(w, row, xq, 0, in_dim, blocks)
}

/// What the blocks of output row `row` add for token `tok` of a batch.
pub fn matmul_q8_0_preq_batch_warp8(
    w: &[u8],
    xq: &[i8],
    in_dim: u64,
    blocks: u64,
    row: u64,
    tok: u64,
) -> (terms: Vec<Term>)
    requires
        blocks_hold(blocks as int, in_dim as int),
        (row + 1) * (blocks * 34) <= w.len(),
        (tok + 1) * (blocks * 32) <= xq.len(),
    ensures
        terms@ == Seq::new(
            blocks as nat,
            |b: int|
                block_term(w@, row * (blocks * 34), xq@, tok * blocks, in_dim as int, b),
        ),
{
    row_terms(w, row, xq, tok, in_dim, blocks)
}

/// What the blocks of output row `row` add where groups of `rank` rows have inputs of their own.
pub fn matmul_q8_0_grouped_preq_warp8(
    w: &[u8],
    xq: &[i8],
    group_dim: u64,
    rank: u64,
    blocks: u64,
    row: u64,
) -> (terms: Vec<Term>)
    requires
        rank > 0,
        blocks_hold(blocks as int, group_dim as int),
        (row + 1) * (blocks * 34) <= w.len(),
        (row as int / rank as int + 1) * (blocks * 32) <= xq.len(),
    ensures
        terms@ == Seq::new(
            blocks as nat,
            |b: int|
                block_term(
                    w@,
                    row * (blocks * 34),
                    xq@,
                    (row as int / rank as int) * blocks,
                    group_dim as int,
                    b,
                ),
        ),
{
    let group: u64 = row / rank;
    row_terms(w, row, xq, group, group_dim, blocks)
}

/// Element `i` of a row of one-byte weights.
pub open spec fn row_weight(w: Seq<u8>, w_at: int, i: int) -> int {
    signed8(w[w_at + (i / 32) * 34 + 2 + i % 32] as int)
}

/// The terms of the product of a whole row with its inputs.
pub open spec fn row_term(w: Seq<u8>, w_at: int, xq: Seq<i8>, x_block: int) -> spec_fn(
    int,
) -> int {
    |i: int| row_weight(w, w_at, i) * xq[x_block * 32 + i]
}

/// The products of the first `n` blocks, added up.
pub open spec fn blocks_dot(
    w: Seq<u8>,
    w_at: int,
    xq: Seq<i8>,
    x_block: int,
    in_dim: int,
    n: nat,
) -> int
    decreases n,
{
    if n == 0 {
        0
    } else {
        blocks_dot(w, w_at, xq, x_block, in_dim, (n - 1) as nat) + total(
            i8_term(w, w_at + (n - 1) * 34 + 2, xq, (x_block + n - 1) * 32),
            q8_0_count(in_dim, n - 1) as nat,
        )
    }
}

/// The products of the blocks add up to the product of the row: every element is in one block.
pub proof fn blocks_cover_the_row(
    w: Seq<u8>,
    w_at: int,
    xq: Seq<i8>,
    x_block: int,
    in_dim: int,
    n: nat,
)
    requires
        in_dim >= 0,
        blocks_hold(n as int, in_dim),
    ensures
        blocks_dot(w, w_at, xq, x_block, in_dim, n) == total(
            row_term(w, w_at, xq, x_block),
            (if n * 32 < in_dim {
                (n * 32) as int
            } else {
                in_dim
            }) as nat,
        ),
    decreases n,
{
    if n > 0 {
        let m = (n - 1) as nat;
        let f = row_term(w, w_at, xq, x_block);
        let at = (m * 32) as nat;
        assert(blocks_dot(w, w_at, xq, x_block, in_dim, m) == total(f, at)) by {
            if m > 0 {
                blocks_cover_the_row(w, w_at, xq, x_block, in_dim, m);
            }
        }
        let g = i8_term(w, w_at + m * 34 + 2, xq, (x_block + m) * 32);
        let c = q8_0_count(in_dim, m as int) as nat;
        assert forall|k: int| 0 <= k < c implies #[trigger] f(at + k) == 1 * g(k) by {
            assert((at + k) / 32 == m && (at + k) % 32 == k);
        }
        total_stretch(f, g, at, 1, c);
        assert(1 * total(g, c) == total(g, c)) by (nonlinear_arith);
    }
}

/// The stretch of a row that thread `tid` of 32 adds up: it starts at `k0`, and is empty where `k1`
/// is not behind it.
pub fn ordered_chunk(in_dim: usize, tid: usize) -> (r: (usize, usize))
    requires
        tid < 32,
        in_dim + 62 <= usize::MAX,
        32 * ((in_dim + 31) / 32) <= usize::MAX,
    ensures
        r.0 == chunk_start(in_dim as int, tid as int),
        r.1 == chunk_end(in_dim as int, tid as int),
{
    let chunk: usize = (in_dim + 31) / 32;
    assert(tid * chunk + chunk <= 32 * chunk) by (nonlinear_arith)
        requires
            tid + 1 <= 32,
    ;
    assert(tid * chunk >= 0) by (nonlinear_arith);
    let k0: usize = tid * chunk;
    let end: usize = k0 + chunk;
    (k0, if end > in_dim {
        in_dim
    } else {
        end
    })
}

/// Where the stretch of a thread starts.
pub open spec fn chunk_start(in_dim: int, tid: int) -> int {
    tid * ((in_dim + 31) / 32)
}

/// Where the stretch of a thread ends.
pub open spec fn chunk_end(in_dim: int, tid: int) -> int {
    if chunk_start(in_dim, tid) + (in_dim + 31) / 32 > in_dim {
        in_dim
    } else {
        chunk_start(in_dim, tid) + (in_dim + 31) / 32
    }
}

/// Every element of a row lies in the stretch of one thread.
pub proof fn chunks_cover_the_row(in_dim: int, i: int)
    requires
        0 <= i < in_dim,
    ensures
        ({
            let tid = i / ((in_dim + 31) / 32);
            &&& 0 <= tid < 32
            &&& chunk_start(in_dim, tid) <= i < chunk_end(in_dim, tid)
        }),
        forall|t: int|
            0 <= t < 32 && #[trigger] chunk_start(in_dim, t) <= i < chunk_end(in_dim, t) ==> t == i
                / ((in_dim + 31) / 32),
{
    let chunk = (in_dim + 31) / 32;
    let tid = i / chunk;
    vstd::arithmetic::div_mod::lemma_fundamental_div_mod(i, chunk);
    assert(chunk * tid == tid * chunk) by (nonlinear_arith);
    assert(0 <= tid < 32) by (nonlinear_arith)
        requires
            i == chunk * tid + i % chunk,
            0 <= i % chunk < chunk,
            0 <= i < in_dim,
            in_dim <= 32 * chunk,
            chunk > 0,
    ;
    assert forall|t: int|
        0 <= t < 32 && #[trigger] chunk_start(in_dim, t) <= i < chunk_end(in_dim, t) implies t
        == tid by {
        if t < tid {
            assert(t * chunk + chunk <= tid * chunk) by (nonlinear_arith)
                requires
                    t + 1 <= tid,
                    chunk > 0,
            ;
        } else if t > tid {
            assert(tid * chunk + chunk <= t * chunk) by (nonlinear_arith)
                requires
                    tid + 1 <= t,
                    chunk > 0,
            ;
        }
    }
}

} // verus!
