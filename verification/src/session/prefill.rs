//! Plans for prompts.
//!
//! A prompt is taken in chunks of as many tokens as the sliding window has rows. Projections
//! and norms of a chunk run together. Attention of the first chunk of a fresh session runs
//! together too; any other chunk attends token by token, over the ring of window rows and the
//! compressed rows that are in the cache by then. The key of a token enters the ring just before
//! the token attends, so that it finds its whole window there.
use vstd::prelude::*;

use crate::model::{
    LayerSlot, ModelSlot, ModelWeights, Weight, N_EMBD, N_HEAD, N_HEAD_DIM, N_HEAD_KV, N_LAYER,
    N_SWA,
};
use crate::session::compressor::{
    attn_steps, index_steps, next_row, rows_after, run_attn_compressor_step,
    run_index_compressor_step,
};
use crate::session::decode::{decode_output, output_steps};
use crate::session::layer::{
    batch_in, decode_attn_out_and_ffn, hc_in_steps, mixed_step, out_and_ffn_steps, push_hc_in,
    push_mixed, push_rope, rope_steps_of, seen_rows, HcIn, BLOCKS_EMBD, BLOCKS_QRANK,
};
use crate::session::state::{Session, MAX_CTX};
use crate::session::step::{compress_ratio, Buf, Step, HC_DIM, MIX_HC, Q_DIM, Q_RANK};

verus! {

/// Why a prompt is not taken.
#[derive(Debug, Clone, Copy, PartialEq, Eq, Structural)]
pub enum PrefillError {
    Empty,
    ExceedsContext { filled: usize, tokens: usize, ctx_size: usize },
}

/// Project the quantized rows of a chunk.
pub open spec fn project_batch(
    w: Weight,
    out: Buf,
    in_dim: u64,
    out_dim: u64,
    nc: u32,
    blocks: u64,
) -> Step {
    Step::MatmulQ8Batch {
        w,
        xq: Buf::BXqI8,
        xscale: Buf::BXscale,
        out,
        in_dim,
        out_dim,
        n_tok: nc as u64,
        blocks,
    }
}

/// Quantize the rows of a chunk.
pub open spec fn quantize_batch(x: Buf, in_dim: u64, blocks: u64, nc: u32) -> Step {
    Step::QuantizeQ8 { x, xq: Buf::BXqI8, xscale: Buf::BXscale, in_dim, blocks, rows: nc }
}

/// Queries and keys of a chunk: projected, normalised, rotated.
pub open spec fn batch_qkv_steps(il: usize, pos: u32, nc: u32) -> Seq<Step> {
    let w = |s: LayerSlot| Weight::Layer(il, s);
    seq![
        quantize_batch(Buf::BAttnNorm, N_EMBD as u64, BLOCKS_EMBD, nc),
        Step::Need(w(LayerSlot::AttnQA)),
        project_batch(
            w(LayerSlot::AttnQA),
            Buf::BQr,
            N_EMBD as u64,
            Q_RANK as u64,
            nc,
            BLOCKS_EMBD,
        ),
        Step::Need(w(LayerSlot::AttnKv)),
        project_batch(
            w(LayerSlot::AttnKv),
            Buf::BKvRaw,
            N_EMBD as u64,
            N_HEAD_DIM as u64,
            nc,
            BLOCKS_EMBD,
        ),
        Step::Need(w(LayerSlot::AttnQANorm)),
        Step::Need(w(LayerSlot::AttnKvANorm)),
        Step::QkvNorm {
            qr: Buf::BQr,
            qr_w: w(LayerSlot::AttnQANorm),
            qr_out: Buf::BQrNorm,
            kv: Buf::BKvRaw,
            kv_w: w(LayerSlot::AttnKvANorm),
            kv_out: Buf::BKv,
            rows: nc,
        },
        quantize_batch(Buf::BQrNorm, Q_RANK as u64, BLOCKS_QRANK, nc),
        Step::Need(w(LayerSlot::AttnQB)),
        project_batch(
            w(LayerSlot::AttnQB),
            Buf::BQ,
            Q_RANK as u64,
            Q_DIM as u64,
            nc,
            BLOCKS_QRANK,
        ),
        Step::HeadNorm {
            x: Buf::BQ,
            n_tok: nc,
            n_head: N_HEAD as u32,
            head_dim: N_HEAD_DIM as u32,
        },
        rope_steps_of(Buf::BQ, nc, N_HEAD as u32, N_HEAD_DIM as u32, pos, il),
        rope_steps_of(Buf::BKv, nc, N_HEAD_KV as u32, N_HEAD_DIM as u32, pos, il),
    ]
}

/// The first chunk of a fresh session: its keys are stored, and its tokens attend together.
pub open spec fn batch_attention_steps(il: usize, pos: u32, nc: u32) -> Seq<Step> {
    if pos == 0 {
        seq![
            Step::StoreRaw {
                kv: Buf::BKv,
                cache: Buf::RawCache(il),
                raw_cap: N_SWA as u32,
                pos,
                n_tok: nc,
            },
            Step::Need(Weight::Layer(il, LayerSlot::AttnSinks)),
            Step::PrefillRaw {
                q: Buf::BQ,
                raw: Buf::RawCache(il),
                sinks: Weight::Layer(il, LayerSlot::AttnSinks),
                heads: Buf::BHeads,
                n_tok: nc,
                window: N_SWA as u32,
            },
        ]
    } else {
        Seq::empty()
    }
}

/// Copy row `t` of a chunk buffer to the buffer of a single token.
pub open spec fn take_row(src: Buf, t: int, width: usize, dst: Buf) -> Step {
    Step::CopyRow { src, src_at: (t * width) as usize, dst, dst_at: 0, n: width }
}

/// Attention of row `t` of a chunk, with `n_comp` compressed rows to see. In the first chunk of a
/// fresh session it is done; else the key of the row is stored, and the row attends.
pub open spec fn token_attention_steps(il: usize, first: int, t: int, n_comp: u32) -> Seq<Step> {
    let pos = (first + t) as u32;
    if first == 0 {
        seq![take_row(Buf::BHeads, t, Q_DIM, Buf::Heads)]
    } else {
        seq![
            take_row(Buf::BQ, t, Q_DIM, Buf::Q),
            take_row(Buf::BKv, t, N_HEAD_DIM, Buf::Kv),
            Step::StoreRaw {
                kv: Buf::Kv,
                cache: Buf::RawCache(il),
                raw_cap: N_SWA as u32,
                pos,
                n_tok: 1,
            },
            Step::Need(Weight::Layer(il, LayerSlot::AttnSinks)),
            mixed_step(il, pos, n_comp),
        ]
    }
}

/// What row `t` of a chunk goes through in a layer by itself, where `first` is the position of
/// the chunk and `row` compressed rows are in the layer's cache.
pub open spec fn chunk_token_steps(
    w: ModelWeights,
    il: usize,
    first: int,
    t: int,
    token: i32,
    row: u32,
    comp_cap: int,
) -> Seq<Step> {
    let pos = (first + t) as u32;
    let after = next_row(w, il as int, pos as int, row, comp_cap);
    let attend = token_attention_steps(il, first, t, seen_rows(il as int, after));
    seq![
        take_row(Buf::BHc, t, HC_DIM, Buf::CurHc),
        take_row(Buf::BHcSplit, t, MIX_HC, Buf::HcSplit),
        take_row(Buf::BAttnNorm, t, N_EMBD, Buf::AttnNorm),
    ] + index_steps(w, il, pos, row, comp_cap) + attn_steps(w, il, pos, row, comp_cap) + attend
        + out_and_ffn_steps(w, il, pos, token) + seq![
        Step::CopyRow {
            src: Buf::CurHc,
            src_at: 0,
            dst: Buf::BHcNext,
            dst_at: (t * HC_DIM) as usize,
            n: HC_DIM,
        },
    ]
}

/// The first `n` rows of a chunk in a layer. Before the chunk, `row` rows were in the cache.
pub open spec fn chunk_tokens_steps(
    w: ModelWeights,
    il: usize,
    first: int,
    n: nat,
    tokens: Seq<i32>,
    row: u32,
    comp_cap: int,
) -> Seq<Step>
    decreases n,
{
    if n == 0 {
        Seq::empty()
    } else {
        chunk_tokens_steps(w, il, first, (n - 1) as nat, tokens, row, comp_cap)
            + chunk_token_steps(
            w,
            il,
            first,
            n - 1,
            tokens[n - 1],
            rows_after(w, il as int, first, (n - 1) as nat, row, comp_cap),
            comp_cap,
        )
    }
}

/// A chunk in one layer.
pub open spec fn chunk_layer_steps(
    w: ModelWeights,
    il: usize,
    first: int,
    tokens: Seq<i32>,
    row: u32,
    comp_cap: int,
) -> Seq<Step> {
    let nc = tokens.len() as u32;
    hc_in_steps(batch_in(il, nc)) + batch_qkv_steps(il, first as u32, nc) + batch_attention_steps(
        il,
        first as u32,
        nc,
    ) + chunk_tokens_steps(w, il, first, tokens.len(), tokens, row, comp_cap) + seq![
        Step::Swap { a: Buf::BHc, b: Buf::BHcNext },
    ]
}

/// A chunk in the first `n` layers. Before the chunk, `rows` rows were in the caches.
pub open spec fn chunk_layers_steps(
    w: ModelWeights,
    n: nat,
    first: int,
    tokens: Seq<i32>,
    rows: Seq<u32>,
    comp_cap: int,
) -> Seq<Step>
    decreases n,
{
    if n == 0 {
        Seq::empty()
    } else {
        chunk_layers_steps(w, (n - 1) as nat, first, tokens, rows, comp_cap) + chunk_layer_steps(
            w,
            (n - 1) as usize,
            first,
            tokens,
            rows[n - 1],
            comp_cap,
        )
    }
}

/// A whole chunk: tokens `at .. at + nc` of the prompt, at position `first`.
pub open spec fn chunk_steps(
    w: ModelWeights,
    first: int,
    tokens: Seq<i32>,
    at: int,
    nc: int,
    rows: Seq<u32>,
    comp_cap: int,
) -> Seq<Step> {
    seq![
        Step::UploadTokens { first: at as usize, count: nc as usize },
        Step::Need(Weight::Model(ModelSlot::TokenEmbd)),
        Step::EmbedTokens {
            w: Weight::Model(ModelSlot::TokenEmbd),
            tokens: Buf::Tokens,
            out: Buf::BHc,
            n_tok: nc as u32,
        },
    ] + chunk_layers_steps(
        w,
        N_LAYER as nat,
        first,
        tokens.subrange(at, at + nc),
        rows,
        comp_cap,
    )
}

/// Rows in all caches after the `n` tokens from `pos` on.
pub open spec fn all_rows_after(
    w: ModelWeights,
    pos: int,
    n: nat,
    rows: Seq<u32>,
    comp_cap: int,
) -> Seq<u32> {
    Seq::new(rows.len(), |il: int| rows_after(w, il, pos, n, rows[il], comp_cap))
}

/// The size of the chunk that starts at token `at` of a prompt of `n`.
pub open spec fn chunk_size(n: int, at: int) -> int {
    if n - at < N_SWA {
        n - at
    } else {
        N_SWA as int
    }
}

/// The chunks of a prompt from token `at` on; the session was at position `start` before it.
pub open spec fn chunks_steps(
    w: ModelWeights,
    start: int,
    tokens: Seq<i32>,
    at: int,
    rows: Seq<u32>,
    comp_cap: int,
) -> Seq<Step>
    decreases tokens.len() - at,
{
    if at < 0 || at >= tokens.len() {
        Seq::empty()
    } else {
        let nc = chunk_size(tokens.len() as int, at);
        chunk_steps(
            w,
            start + at,
            tokens,
            at,
            nc,
            all_rows_after(w, start, at as nat, rows, comp_cap),
            comp_cap,
        ) + chunks_steps(w, start, tokens, at + nc, rows, comp_cap)
    }
}

/// A whole prompt, up to the logits of its last token. The position moves on before the logits
/// are read.
pub open spec fn prefill_steps(
    w: ModelWeights,
    start: int,
    tokens: Seq<i32>,
    rows: Seq<u32>,
    comp_cap: int,
) -> Seq<Step> {
    seq![Step::AllocChunk { tokens: chunk_size(tokens.len() as int, 0) as usize }] + chunks_steps(
        w,
        start,
        tokens,
        0,
        rows,
        comp_cap,
    ) + output_steps() + seq![Step::Advance { n: tokens.len() as usize }, Step::ReadLogits]
}

fn push_quantize_batch(x: Buf, in_dim: u64, blocks: u64, nc: u32, out: &mut Vec<Step>)
    ensures
        final(out)@ == old(out)@.push(quantize_batch(x, in_dim, blocks, nc)),
{
    out.push(
        Step::QuantizeQ8 { x, xq: Buf::BXqI8, xscale: Buf::BXscale, in_dim, blocks, rows: nc },
    );
}

fn push_matmul_batch(
    w: Weight,
    dst: Buf,
    in_dim: u64,
    out_dim: u64,
    nc: u32,
    blocks: u64,
    out: &mut Vec<Step>,
)
    ensures
        final(out)@ == old(out)@.push(project_batch(w, dst, in_dim, out_dim, nc, blocks)),
{
    out.push(
        Step::MatmulQ8Batch {
            w,
            xq: Buf::BXqI8,
            xscale: Buf::BXscale,
            out: dst,
            in_dim,
            out_dim,
            n_tok: nc as u64,
            blocks,
        },
    );
}

/// Appends queries and keys of a chunk.
fn push_batch_qkv(il: usize, pos: u32, nc: u32, out: &mut Vec<Step>)
    ensures
        final(out)@ == old(out)@ + batch_qkv_steps(il, pos, nc),
{
    push_quantize_batch(Buf::BAttnNorm, N_EMBD as u64, BLOCKS_EMBD, nc, out);
    out.push(Step::Need(Weight::Layer(il, LayerSlot::AttnQA)));
    push_matmul_batch(
        Weight::Layer(il, LayerSlot::AttnQA),
        Buf::BQr,
        N_EMBD as u64,
        Q_RANK as u64,
        nc,
        BLOCKS_EMBD,
        out,
    );
    out.push(Step::Need(Weight::Layer(il, LayerSlot::AttnKv)));
    push_matmul_batch(
        Weight::Layer(il, LayerSlot::AttnKv),
        Buf::BKvRaw,
        N_EMBD as u64,
        N_HEAD_DIM as u64,
        nc,
        BLOCKS_EMBD,
        out,
    );
    out.push(Step::Need(Weight::Layer(il, LayerSlot::AttnQANorm)));
    out.push(Step::Need(Weight::Layer(il, LayerSlot::AttnKvANorm)));
    out.push(
        Step::QkvNorm {
            qr: Buf::BQr,
            qr_w: Weight::Layer(il, LayerSlot::AttnQANorm),
            qr_out: Buf::BQrNorm,
            kv: Buf::BKvRaw,
            kv_w: Weight::Layer(il, LayerSlot::AttnKvANorm),
            kv_out: Buf::BKv,
            rows: nc,
        },
    );
    push_quantize_batch(Buf::BQrNorm, Q_RANK as u64, BLOCKS_QRANK, nc, out);
    out.push(Step::Need(Weight::Layer(il, LayerSlot::AttnQB)));
    push_matmul_batch(
        Weight::Layer(il, LayerSlot::AttnQB),
        Buf::BQ,
        Q_RANK as u64,
        Q_DIM as u64,
        nc,
        BLOCKS_QRANK,
        out,
    );
    out.push(
        Step::HeadNorm {
            x: Buf::BQ,
            n_tok: nc,
            n_head: N_HEAD as u32,
            head_dim: N_HEAD_DIM as u32,
        },
    );
    push_rope(Buf::BQ, nc, N_HEAD as u32, N_HEAD_DIM as u32, pos, il, out);
    push_rope(Buf::BKv, nc, N_HEAD_KV as u32, N_HEAD_DIM as u32, pos, il, out);
    assert(out@ =~= old(out)@ + batch_qkv_steps(il, pos, nc));
}

/// Appends what row `t` of a chunk goes through by itself: how many rows are in the cache after
/// it.
fn push_chunk_token(
    w: &ModelWeights,
    il: usize,
    first: u32,
    t: usize,
    token: i32,
    row: u32,
    comp_cap: usize,
    out: &mut Vec<Step>,
) -> (r: u32)
    requires
        w.wf(),
        il < N_LAYER,
        t < N_SWA,
        first + t < u32::MAX,
        row <= comp_cap,
        comp_cap <= MAX_CTX,
    ensures
        final(out)@ == old(out)@ + chunk_token_steps(
            *w,
            il,
            first as int,
            t as int,
            token,
            row,
            comp_cap as int,
        ),
        r == next_row(*w, il as int, first + t, row, comp_cap as int),
        r <= comp_cap,
{
    let pos: u32 = first + t as u32;
    out.push(
        Step::CopyRow { src: Buf::BHc, src_at: t * HC_DIM, dst: Buf::CurHc, dst_at: 0, n: HC_DIM },
    );
    out.push(
        Step::CopyRow {
            src: Buf::BHcSplit,
            src_at: t * MIX_HC,
            dst: Buf::HcSplit,
            dst_at: 0,
            n: MIX_HC,
        },
    );
    out.push(
        Step::CopyRow {
            src: Buf::BAttnNorm,
            src_at: t * N_EMBD,
            dst: Buf::AttnNorm,
            dst_at: 0,
            n: N_EMBD,
        },
    );
    run_index_compressor_step(w, il, pos, row, comp_cap, out);
    let after: u32 = run_attn_compressor_step(w, il, pos, row, comp_cap, out);
    if first == 0 {
        out.push(
            Step::CopyRow {
                src: Buf::BHeads,
                src_at: t * Q_DIM,
                dst: Buf::Heads,
                dst_at: 0,
                n: Q_DIM,
            },
        );
    } else {
        out.push(
            Step::CopyRow { src: Buf::BQ, src_at: t * Q_DIM, dst: Buf::Q, dst_at: 0, n: Q_DIM },
        );
        out.push(
            Step::CopyRow {
                src: Buf::BKv,
                src_at: t * N_HEAD_DIM,
                dst: Buf::Kv,
                dst_at: 0,
                n: N_HEAD_DIM,
            },
        );
        out.push(
            Step::StoreRaw {
                kv: Buf::Kv,
                cache: Buf::RawCache(il),
                raw_cap: N_SWA as u32,
                pos,
                n_tok: 1,
            },
        );
        out.push(Step::Need(Weight::Layer(il, LayerSlot::AttnSinks)));
        let n_comp: u32 = if compress_ratio(il) != 0 {
            after
        } else {
            0
        };
        push_mixed(il, pos, n_comp, out);
    }
    decode_attn_out_and_ffn(w, il, pos, token, out);
    out.push(
        Step::CopyRow {
            src: Buf::CurHc,
            src_at: 0,
            dst: Buf::BHcNext,
            dst_at: t * HC_DIM,
            n: HC_DIM,
        },
    );
    assert(out@ =~= old(out)@ + chunk_token_steps(
        *w,
        il,
        first as int,
        t as int,
        token,
        row,
        comp_cap as int,
    ));
    after
}

/// Appends a chunk in one layer: how many rows are in the layer's cache after it.
fn push_chunk_layer(
    w: &ModelWeights,
    il: usize,
    first: u32,
    tokens: &[i32],
    row: u32,
    comp_cap: usize,
    out: &mut Vec<Step>,
) -> (r: u32)
    requires
        w.wf(),
        il < N_LAYER,
        tokens@.len() <= N_SWA,
        first + tokens@.len() < u32::MAX,
        row <= comp_cap,
        comp_cap <= MAX_CTX,
    ensures
        final(out)@ == old(out)@ + chunk_layer_steps(
            *w,
            il,
            first as int,
            tokens@,
            row,
            comp_cap as int,
        ),
        r == rows_after(*w, il as int, first as int, tokens@.len(), row, comp_cap as int),
        r <= comp_cap,
{
    let nc: u32 = tokens.len() as u32;
    let h = HcIn {
        layer: il,
        mix_w: LayerSlot::HcAttnFn,
        scale: LayerSlot::HcAttnScale,
        base: LayerSlot::HcAttnBase,
        norm: LayerSlot::AttnNorm,
        x: Buf::BHc,
        flat: Buf::BFlatHc,
        mix: Buf::BHcMix,
        split: Buf::BHcSplit,
        cur: Buf::BAttnCur,
        normed: Buf::BAttnNorm,
        rows: nc,
    };
    push_hc_in(&h, out);
    push_batch_qkv(il, first, nc, out);
    let ghost before = out@;
    if first == 0 {
        out.push(
            Step::StoreRaw {
                kv: Buf::BKv,
                cache: Buf::RawCache(il),
                raw_cap: N_SWA as u32,
                pos: first,
                n_tok: nc,
            },
        );
        out.push(Step::Need(Weight::Layer(il, LayerSlot::AttnSinks)));
        out.push(
            Step::PrefillRaw {
                q: Buf::BQ,
                raw: Buf::RawCache(il),
                sinks: Weight::Layer(il, LayerSlot::AttnSinks),
                heads: Buf::BHeads,
                n_tok: nc,
                window: N_SWA as u32,
            },
        );
    }
    assert(out@ =~= before + batch_attention_steps(il, first, nc));
    let ghost common = out@;
    let mut cur: u32 = row;
    let mut t: usize = 0;
    assert(out@ =~= common + chunk_tokens_steps(
        *w,
        il,
        first as int,
        0,
        tokens@,
        row,
        comp_cap as int,
    ));
    while t < tokens.len()
        invariant
            t <= tokens.len(),
            w.wf(),
            il < N_LAYER,
            tokens@.len() <= N_SWA,
            first + tokens@.len() < u32::MAX,
            cur <= comp_cap,
            comp_cap <= MAX_CTX,
            cur == rows_after(*w, il as int, first as int, t as nat, row, comp_cap as int),
            out@ == common + chunk_tokens_steps(
                *w,
                il,
                first as int,
                t as nat,
                tokens@,
                row,
                comp_cap as int,
            ),
        decreases tokens.len() - t,
    {
        cur = push_chunk_token(w, il, first, t, tokens[t], cur, comp_cap, out);
        t = t + 1;
        assert(out@ =~= common + chunk_tokens_steps(
            *w,
            il,
            first as int,
            t as nat,
            tokens@,
            row,
            comp_cap as int,
        ));
    }
    out.push(Step::Swap { a: Buf::BHc, b: Buf::BHcNext });
    assert(out@ =~= old(out)@ + chunk_layer_steps(
        *w,
        il,
        first as int,
        tokens@,
        row,
        comp_cap as int,
    ));
    cur
}

/// Appends a whole chunk, and brings `rows` up to date.
fn push_chunk(
    w: &ModelWeights,
    first: u32,
    tokens: &[i32],
    at: usize,
    nc: usize,
    rows: &mut Vec<u32>,
    comp_cap: usize,
    out: &mut Vec<Step>,
)
    requires
        w.wf(),
        0 < nc <= N_SWA,
        at + nc <= tokens.len(),
        first + nc < u32::MAX,
        comp_cap <= MAX_CTX,
        old(rows)@.len() == N_LAYER,
        forall|il: int| 0 <= il < N_LAYER ==> #[trigger] old(rows)@[il] <= comp_cap,
    ensures
        final(out)@ == old(out)@ + chunk_steps(
            *w,
            first as int,
            tokens@,
            at as int,
            nc as int,
            old(rows)@,
            comp_cap as int,
        ),
        final(rows)@ == all_rows_after(*w, first as int, nc as nat, old(rows)@, comp_cap as int),
        forall|il: int| 0 <= il < N_LAYER ==> #[trigger] final(rows)@[il] <= comp_cap,
{
    let ghost start = rows@;
    let chunk: &[i32] = vstd::slice::slice_subrange(tokens, at, at + nc);
    out.push(Step::UploadTokens { first: at, count: nc });
    out.push(Step::Need(Weight::Model(ModelSlot::TokenEmbd)));
    out.push(
        Step::EmbedTokens {
            w: Weight::Model(ModelSlot::TokenEmbd),
            tokens: Buf::Tokens,
            out: Buf::BHc,
            n_tok: nc as u32,
        },
    );
    let ghost common = out@;
    let mut il: usize = 0;
    assert(out@ =~= common + chunk_layers_steps(
        *w,
        0,
        first as int,
        chunk@,
        start,
        comp_cap as int,
    ));
    while il < N_LAYER
        invariant
            il <= N_LAYER,
            w.wf(),
            chunk@.len() == nc,
            nc <= N_SWA,
            first + nc < u32::MAX,
            comp_cap <= MAX_CTX,
            start.len() == N_LAYER,
            rows@.len() == N_LAYER,
            forall|l: int| 0 <= l < N_LAYER ==> #[trigger] rows@[l] <= comp_cap,
            forall|l: int| il <= l < N_LAYER ==> #[trigger] rows@[l] == start[l],
            forall|l: int|
                0 <= l < il ==> #[trigger] rows@[l] == rows_after(
                    *w,
                    l,
                    first as int,
                    nc as nat,
                    start[l],
                    comp_cap as int,
                ),
            out@ == common + chunk_layers_steps(
                *w,
                il as nat,
                first as int,
                chunk@,
                start,
                comp_cap as int,
            ),
        decreases N_LAYER - il,
    {
        let row: u32 = rows[il];
        let after: u32 = push_chunk_layer(w, il, first, chunk, row, comp_cap, out);
        rows.set(il, after);
        il = il + 1;
        assert(out@ =~= common + chunk_layers_steps(
            *w,
            il as nat,
            first as int,
            chunk@,
            start,
            comp_cap as int,
        ));
    }
    assert(rows@ =~= all_rows_after(*w, first as int, nc as nat, start, comp_cap as int));
    assert(out@ =~= old(out)@ + chunk_steps(
        *w,
        first as int,
        tokens@,
        at as int,
        nc as int,
        start,
        comp_cap as int,
    ));
}

/// Rows after two runs of tokens are rows after both.
pub proof fn rows_add_up(
    w: ModelWeights,
    il: int,
    pos: int,
    a: nat,
    b: nat,
    row: u32,
    comp_cap: int,
)
    ensures
        rows_after(w, il, pos, a + b, row, comp_cap) == rows_after(
            w,
            il,
            pos + a,
            b,
            rows_after(w, il, pos, a, row, comp_cap),
            comp_cap,
        ),
    decreases b,
{
    if b > 0 {
        rows_add_up(w, il, pos, a, (b - 1) as nat, row, comp_cap);
        assert(pos + (a + b) - 1 == pos + a + b - 1);
    }
}

impl Session {
    /// The plan for a prompt: fills the caches with all its tokens and reads the logits of the
    /// last one. Empty prompts, and prompts for which the context has no room, are refused.
    pub fn prefill(&self, w: &ModelWeights, tokens: &[i32]) -> (r: Result<Vec<Step>, PrefillError>)
        requires
            self.wf(),
            w.wf(),
        ensures
            if tokens@.len() == 0 {
                r == Err::<Vec<Step>, PrefillError>(PrefillError::Empty)
            } else if self.n_filled + tokens@.len() > self.ctx_size {
                r == Err::<Vec<Step>, PrefillError>(
                    PrefillError::ExceedsContext {
                        filled: self.n_filled,
                        tokens: tokens@.len() as usize,
                        ctx_size: self.ctx_size,
                    },
                )
            } else {
                r matches Ok(out) && out@ == prefill_steps(
                    *w,
                    self.n_filled as int,
                    tokens@,
                    self.layer_n_comp@,
                    self.comp_cap as int,
                )
            },
    {
        let n: usize = tokens.len();
        if n == 0 {
            return Err(PrefillError::Empty);
        }
        if self.n_filled > self.ctx_size || n > self.ctx_size - self.n_filled {
            return Err(
                PrefillError::ExceedsContext {
                    filled: self.n_filled,
                    tokens: n,
                    ctx_size: self.ctx_size,
                },
            );
        }
        let start: usize = self.n_filled;
        let ghost rows0 = self.layer_n_comp@;
        let ghost cap = self.comp_cap as int;
        let mut rows: Vec<u32> = self.layer_n_comp.clone();
        assert(rows@ =~= rows0);
        let mut out: Vec<Step> = Vec::new();
        out.push(Step::AllocChunk { tokens: if n < N_SWA {
            n
        } else {
            N_SWA
        } });
        let ghost common = out@;
        let mut done: usize = 0;
        let ghost mut so_far: Seq<Step> = Seq::empty();
        assert(rows@ =~= all_rows_after(*w, start as int, 0, rows0, cap));
        assert(out@ =~= common + so_far);
        assert(chunks_steps(*w, start as int, tokens@, 0, rows0, cap) =~= so_far + chunks_steps(
            *w,
            start as int,
            tokens@,
            0,
            rows0,
            cap,
        ));
        while done < n
            invariant
                self.wf(),
                w.wf(),
                n == tokens@.len(),
                done <= n,
                start + n <= self.ctx_size,
                cap == self.comp_cap,
                rows0.len() == N_LAYER,
                rows@.len() == N_LAYER,
                forall|il: int| 0 <= il < N_LAYER ==> #[trigger] rows@[il] <= cap,
                rows@ == all_rows_after(*w, start as int, done as nat, rows0, cap),
                out@ == common + so_far,
                chunks_steps(*w, start as int, tokens@, 0, rows0, cap) == so_far + chunks_steps(
                    *w,
                    start as int,
                    tokens@,
                    done as int,
                    rows0,
                    cap,
                ),
            decreases n - done,
        {
            let nc: usize = if n - done < N_SWA {
                n - done
            } else {
                N_SWA
            };
            let ghost rows_then = rows@;
            push_chunk(
                w,
                (start + done) as u32,
                tokens,
                done,
                nc,
                &mut rows,
                self.comp_cap,
                &mut out,
            );
            proof {
                let chunk = chunk_steps(
                    *w,
                    start + done,
                    tokens@,
                    done as int,
                    nc as int,
                    rows_then,
                    cap,
                );
                let rest = chunks_steps(*w, start as int, tokens@, done + nc, rows0, cap);
                assert(so_far + (chunk + rest) =~= (so_far + chunk) + rest);
                assert(common + so_far + chunk =~= common + (so_far + chunk));
                so_far = so_far + chunk;
                assert forall|il: int| 0 <= il < N_LAYER implies rows@[il] == #[trigger] rows_after(
                    *w,
                    il,
                    start as int,
                    (done + nc) as nat,
                    rows0[il],
                    cap,
                ) by {
                    rows_add_up(
                        *w,
                        il,
                        start as int,
                        done as nat,
                        nc as nat,
                        rows0[il],
                        cap,
                    );
                }
                assert(rows@ =~= all_rows_after(
                    *w,
                    start as int,
                    (done + nc) as nat,
                    rows0,
                    cap,
                ));
            }
            done = done + nc;
        }
        decode_output(&mut out);
        out.push(Step::Advance { n });
        out.push(Step::ReadLogits);
        assert(out@ =~= prefill_steps(*w, start as int, tokens@, rows0, cap));
        Ok(out)
    }
}

} // verus!
