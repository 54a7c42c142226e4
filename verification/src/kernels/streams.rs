//! The sums over the parallel residual streams: which numbers are multiplied with which.
use vstd::arithmetic::div_mod::lemma_fundamental_div_mod;
use vstd::prelude::*;

use crate::kernels::hc::{comb_offset, post_offset, stream_offset};
use crate::kernels::matmul::{block_term, blocks_hold, matmul_q8_0_preq_warp8, Term};

verus! {

/// A product that a sum adds: where its factors stand, each in its own buffer.
#[derive(Clone, Copy, Debug, PartialEq, Eq, Structural)]
pub struct Product {
    pub a: usize,
    pub b: usize,
}

/// The products that make number `d` of the sum over the streams of token `t`: stream by stream,
/// with weights that lie `stride` apart from token to token.
pub open spec fn stream_products(
    t: int,
    d: int,
    n_hc: int,
    n_embd: int,
    stride: int,
) -> Seq<Product> {
    Seq::new(
        n_hc as nat,
        |h: int|
            Product { a: ((t * n_hc + h) * n_embd + d) as usize, b: (t * stride + h) as usize },
    )
}

/// The products that mix the streams of token `t` into number `d` of its stream `dst`: a weight of
/// the split with a number of the residual.
pub open spec fn mix_products(
    t: int,
    dst: int,
    d: int,
    n_hc: int,
    n_embd: int,
    mix_hc: int,
) -> Seq<Product> {
    Seq::new(
        n_hc as nat,
        |src: int|
            Product {
                a: (t * mix_hc + 2 * n_hc + dst + src * n_hc) as usize,
                b: ((t * n_hc + src) * n_embd + d) as usize,
            },
    )
}

/// The token and the number in its row of element `gid`.
proof fn element_parts(gid: int, width: int, rows: int)
    requires
        0 <= gid < width * rows,
        width > 0,
    ensures
        0 <= gid / width < rows,
        0 <= gid % width < width,
        gid == (gid / width) * width + gid % width,
{
    lemma_fundamental_div_mod(gid, width);
    let q = gid / width;
    assert(width * q == q * width) by (nonlinear_arith);
    assert(q < rows) by (nonlinear_arith)
        requires
            q * width <= gid,
            gid < width * rows,
            width > 0,
    ;
    assert(q >= 0) by (nonlinear_arith)
        requires
            gid >= 0,
            width > 0,
            gid < q * width + width,
    ;
}

proof fn rows_grow(a: int, b: int, x: int)
    requires
        a <= b,
        x >= 0,
    ensures
        a * x <= b * x,
{
    assert(a * x <= b * x) by (nonlinear_arith)
        requires
            a <= b,
            x >= 0,
    ;
}

/// What element `gid` of the weighted sum over the streams is made of.
pub fn hc_weighted_sum(gid: usize, n_embd: usize, n_hc: usize, n_tokens: usize, stride: usize) -> (
terms: Vec<Product>)
    requires
        gid < n_embd * n_tokens,
        n_tokens * n_hc * n_embd <= usize::MAX,
        n_tokens * stride + n_hc <= usize::MAX,
    ensures
        terms@ == stream_products(
            gid as int / n_embd as int,
            gid as int % n_embd as int,
            n_hc as int,
            n_embd as int,
            stride as int,
        ),
        forall|i: int|
            0 <= i < terms@.len() ==> (#[trigger] terms@[i]).a < n_tokens * n_hc * n_embd,
{
    assert(n_embd > 0) by (nonlinear_arith)
        requires
            gid < n_embd * n_tokens,
            gid >= 0,
    ;
    let t: usize = gid / n_embd;
    let d: usize = gid % n_embd;
    proof {
        element_parts(gid as int, n_embd as int, n_tokens as int);
        rows_grow(t + 1, n_tokens as int, n_hc as int);
        rows_grow((t + 1) * n_hc, n_tokens * n_hc, n_embd as int);
        rows_grow(t as int, n_tokens as int, stride as int);
        assert(t * stride >= 0) by (nonlinear_arith);
    }
    let mut terms: Vec<Product> = Vec::new();
    let mut h: usize = 0;
    while h < n_hc
        invariant
            h <= n_hc,
            d < n_embd,
            (t + 1) * n_hc * n_embd <= n_tokens * n_hc * n_embd,
            n_tokens * n_hc * n_embd <= usize::MAX,
            0 <= t * stride,
            t * stride + n_hc <= usize::MAX,
            terms@ =~= stream_products(
                t as int,
                d as int,
                n_hc as int,
                n_embd as int,
                stride as int,
            ).take(h as int),
            forall|i: int|
                0 <= i < terms@.len() ==> (#[trigger] terms@[i]).a < n_tokens * n_hc * n_embd,
        decreases n_hc - h,
    {
        let a: usize = stream_offset(t, h, d, n_hc, n_embd);
        terms.push(Product { a, b: t * stride + h });
        h = h + 1;
    }
    terms
}

/// What a number of a stream is made of behind a block: where the block's output stands (and what
/// is added to it), where the weight of that output stands, and what the streams add.
#[derive(Debug)]
pub struct Expansion {
    pub block: usize,
    pub post: usize,
    pub mixes: Vec<Product>,
}

impl Expansion {
    /// It is that of number `d` of stream `dst` of token `t`.
    pub open spec fn is_of(
        self,
        t: int,
        dst: int,
        d: int,
        n_hc: int,
        n_embd: int,
        mix_hc: int,
    ) -> bool {
        &&& self.block == t * n_embd + d
        &&& self.post == t * mix_hc + n_hc + dst
        &&& self.mixes@ == mix_products(t, dst, d, n_hc, n_embd, mix_hc)
    }
}

/// The expansion of number `d` of stream `dst` of token `t`.
fn expansion(t: usize, dst: usize, d: usize, n_hc: usize, n_embd: usize, mix_hc: usize) -> (e:
    Expansion)
    requires
        dst < n_hc,
        d < n_embd,
        2 * n_hc + n_hc * n_hc <= mix_hc,
        (t + 1) * mix_hc <= usize::MAX,
        (t + 1) * n_hc * n_embd <= usize::MAX,
    ensures
        e.is_of(t as int, dst as int, d as int, n_hc as int, n_embd as int, mix_hc as int),
        e.post < (t + 1) * mix_hc,
        forall|i: int|
            0 <= i < e.mixes@.len() ==> (#[trigger] e.mixes@[i]).a < (t + 1) * mix_hc
                && e.mixes@[i].b < (t + 1) * n_hc * n_embd,
{
    assert(0 <= n_hc * n_hc) by (nonlinear_arith);
    let post: usize = post_offset(t, dst, n_hc, mix_hc);
    let mut mixes: Vec<Product> = Vec::new();
    let mut src: usize = 0;
    while src < n_hc
        invariant
            src <= n_hc,
            dst < n_hc,
            d < n_embd,
            2 * n_hc + n_hc * n_hc <= mix_hc,
            (t + 1) * mix_hc <= usize::MAX,
            (t + 1) * n_hc * n_embd <= usize::MAX,
            mixes@ =~= mix_products(
                t as int,
                dst as int,
                d as int,
                n_hc as int,
                n_embd as int,
                mix_hc as int,
            ).take(src as int),
            forall|i: int|
                0 <= i < mixes@.len() ==> (#[trigger] mixes@[i]).a < (t + 1) * mix_hc
                    && mixes@[i].b < (t + 1) * n_hc * n_embd,
        decreases n_hc - src,
    {
        let a: usize = comb_offset(t, dst, src, n_hc, mix_hc);
        let b: usize = stream_offset(t, src, d, n_hc, n_embd);
        mixes.push(Product { a, b });
        src = src + 1;
    }
    assert(mixes@ =~= mix_products(
        t as int,
        dst as int,
        d as int,
        n_hc as int,
        n_embd as int,
        mix_hc as int,
    ));
    proof {
        rows_grow(1, n_hc as int, (t + 1) as int);
        assert((t + 1) * n_hc == n_hc * (t + 1)) by (nonlinear_arith);
        rows_grow(t + 1, (t + 1) * n_hc, n_embd as int);
        assert((t + 1) * n_embd == t * n_embd + n_embd) by (nonlinear_arith);
        assert(t * n_embd >= 0) by (nonlinear_arith);
    }
    Expansion { block: t * n_embd + d, post, mixes }
}

/// What element `gid` of the streams behind a block is made of. A split holds the weights of the
/// input, those of the output, and a matrix with one column for every stream.
pub fn hc_expand(gid: usize, n_embd: usize, n_hc: usize, n_tokens: usize, mix_hc: usize) -> (e:
    Expansion)
    requires
        gid < n_embd * (n_tokens * n_hc),
        2 * n_hc + n_hc * n_hc <= mix_hc,
        n_tokens * mix_hc <= usize::MAX,
        n_tokens * n_hc * n_embd <= usize::MAX,
    ensures
        e.is_of(
            (gid as int / n_embd as int) / n_hc as int,
            (gid as int / n_embd as int) % n_hc as int,
            gid as int % n_embd as int,
            n_hc as int,
            n_embd as int,
            mix_hc as int,
        ),
        e.post < n_tokens * mix_hc,
        forall|i: int|
            0 <= i < e.mixes@.len() ==> (#[trigger] e.mixes@[i]).a < n_tokens * mix_hc
                && e.mixes@[i].b < n_tokens * n_hc * n_embd,
{
    assert(n_embd > 0 && n_hc > 0) by (nonlinear_arith)
        requires
            gid < n_embd * (n_tokens * n_hc),
            gid >= 0,
    ;
    let d: usize = gid % n_embd;
    let v: usize = gid / n_embd;
    let dst: usize = v % n_hc;
    let t: usize = v / n_hc;
    proof {
        element_parts(gid as int, n_embd as int, n_tokens * n_hc);
        assert(n_tokens * n_hc == n_hc * n_tokens) by (nonlinear_arith);
        element_parts(v as int, n_hc as int, n_tokens as int);
        rows_grow(t + 1, n_tokens as int, mix_hc as int);
        rows_grow(t + 1, n_tokens as int, n_hc as int);
        rows_grow((t + 1) * n_hc, n_tokens * n_hc, n_embd as int);
    }
    expansion(t, dst, d, n_hc, n_embd, mix_hc)
}

/// What row `row` of a projection is made of, and what its result does to the streams of the one
/// token: one expansion for every stream.
pub fn matmul_q8_0_hc_expand_preq_warp8(
    w: &[u8],
    xq: &[i8],
    in_dim: u64,
    blocks: u64,
    row: u64,
    n_embd: usize,
    n_hc: usize,
) -> (r: (Vec<Term>, Vec<Expansion>))
    requires
        blocks_hold(blocks as int, in_dim as int),
        (row + 1) * (blocks * 34) <= w.len(),
        blocks * 32 <= xq.len(),
        row < n_embd,
        n_hc * n_embd <= usize::MAX,
        2 * n_hc + n_hc * n_hc <= usize::MAX,
    ensures
        r.0@ == Seq::new(
            blocks as nat,
            |b: int| block_term(w@, row * (blocks * 34), xq@, 0, in_dim as int, b),
        ),
        r.1@.len() == n_hc,
        forall|dst: int|
            0 <= dst < n_hc ==> (#[trigger] r.1@[dst]).is_of(
                0,
                dst,
                row as int,
                n_hc as int,
                n_embd as int,
                2 * n_hc + n_hc * n_hc,
            ),
{
    let terms: Vec<Term> = matmul_q8_0_preq_warp8(w, xq, in_dim, blocks, row);
    assert(0 <= n_hc * n_hc) by (nonlinear_arith);
    let mix_hc: usize = 2 * n_hc + n_hc * n_hc;
    let mut streams: Vec<Expansion> = Vec::new();
    let mut dst: usize = 0;
    while dst < n_hc
        invariant
            dst <= n_hc,
            row < n_embd,
            n_hc * n_embd <= usize::MAX,
            mix_hc == 2 * n_hc + n_hc * n_hc,
            streams@.len() == dst,
            forall|x: int|
                0 <= x < dst ==> (#[trigger] streams@[x]).is_of(
                    0,
                    x,
                    row as int,
                    n_hc as int,
                    n_embd as int,
                    mix_hc as int,
                ),
        decreases n_hc - dst,
    {
        assert((0 + 1) * n_hc * n_embd == n_hc * n_embd) by (nonlinear_arith);
        streams.push(expansion(0, dst, row as usize, n_hc, n_embd, mix_hc));
        dst = dst + 1;
    }
    (terms, streams)
}

/// The projection with expansion writes to stream `dst` what an expansion behind the plain
/// projection writes to its element: the elements of one token lie stream by stream.
pub proof fn expansions_agree(e: Expansion, dst: int, d: int, n_hc: int, n_embd: int, mix_hc: int)
    requires
        0 <= dst < n_hc,
        0 <= d < n_embd,
        e.is_of(0, dst, d, n_hc, n_embd, mix_hc),
    ensures
        ({
            let gid = dst * n_embd + d;
            let v = gid / n_embd;
            e.is_of(v / n_hc, v % n_hc, gid % n_embd, n_hc, n_embd, mix_hc)
        }),
{
    let gid = dst * n_embd + d;
    vstd::arithmetic::div_mod::lemma_fundamental_div_mod_converse(gid, n_embd, dst, d);
    assert(gid / n_embd == dst && gid % n_embd == d);
    vstd::arithmetic::div_mod::lemma_small_mod(dst as nat, n_hc as nat);
    vstd::arithmetic::div_mod::lemma_basic_div(dst, n_hc);
}

} // verus!
