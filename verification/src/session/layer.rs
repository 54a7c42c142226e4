//! Plans for the parts of a layer.
use vstd::prelude::*;

use crate::model::{
    LayerSlot, ModelWeights, Weight, N_EMBD, N_EXPERT, N_EXPERT_USED, N_FF_EXP, N_HEAD, N_HEAD_DIM,
    N_HEAD_KV, N_INDEXER_HEAD, N_INDEXER_HEAD_DIM, N_INDEXER_TOP_K, N_LAYER, N_LORA_O, N_OUT_GROUP,
    N_SWA,
};
use crate::pow2::{next_pow2, next_power_of_two};
use crate::session::state::{has_slot, holds};
use crate::session::step::{
    compress_ratio, ratio_of, Buf, Operand, Step, GROUP_DIM, HC_DIM, INDEXER_Q_DIM, LOW_DIM, MIX_HC,
    MOE_MID_BLOCKS, MOE_XQ_BLOCKS, Q_DIM, Q_RANK, ROPE_ORIG_CTX,
};

verus! {

/// Blocks of 32 in an embedding row.
pub const BLOCKS_EMBD: u64 = 128;

/// Blocks of 32 in a row of query rank.
pub const BLOCKS_QRANK: u64 = 32;

/// Blocks of 32 in a group of heads.
pub const BLOCKS_GROUP: u64 = 128;

/// Blocks of 32 in a row of low-rank attention output.
pub const BLOCKS_LOW: u64 = 256;

/// Blocks of 32 in the hidden row of an expert.
pub const BLOCKS_FF: u64 = 64;

/// Bytes of a weight row, and of all rows of an expert, in the up and gate projections: blocks
/// of 66 bytes.
pub const GATE_ROW_BYTES: u64 = 1056;

pub const GATE_EXPERT_BYTES: u64 = 2162688;

/// The same in the down projection: blocks of 84 bytes.
pub const DOWN_ROW_BYTES: u64 = 672;

pub const DOWN_EXPERT_BYTES: u64 = 2752512;

/// The buffers and tensors that turn the residual streams into the normalised input of a block.
#[derive(Clone, Copy)]
pub struct HcIn {
    pub layer: usize,
    pub mix_w: LayerSlot,
    pub scale: LayerSlot,
    pub base: LayerSlot,
    pub norm: LayerSlot,
    pub x: Buf,
    pub flat: Buf,
    pub mix: Buf,
    pub split: Buf,
    pub cur: Buf,
    pub normed: Buf,
    pub rows: u32,
}

/// Input of the attention block of one token.
pub open spec fn attn_in(il: usize) -> HcIn {
    HcIn {
        layer: il,
        mix_w: LayerSlot::HcAttnFn,
        scale: LayerSlot::HcAttnScale,
        base: LayerSlot::HcAttnBase,
        norm: LayerSlot::AttnNorm,
        x: Buf::CurHc,
        flat: Buf::FlatHc,
        mix: Buf::HcMix,
        split: Buf::HcSplit,
        cur: Buf::AttnCur,
        normed: Buf::AttnNorm,
        rows: 1,
    }
}

/// Input of the attention block of a chunk of tokens.
pub open spec fn batch_in(il: usize, nc: u32) -> HcIn {
    HcIn {
        layer: il,
        mix_w: LayerSlot::HcAttnFn,
        scale: LayerSlot::HcAttnScale,
        base: LayerSlot::HcAttnBase,
        norm: LayerSlot::AttnNorm,
        x: Buf::BHc,
        flat: Buf::BFlatHc,
        mix: Buf::BHcMix,
        split: Buf::BHcSplit,
        cur: Buf::BAttnCur,
        normed: Buf::BAttnNorm,
        rows: nc,
    }
}

/// Input of the feed-forward block of one token.
pub open spec fn ffn_in(il: usize) -> HcIn {
    HcIn {
        layer: il,
        mix_w: LayerSlot::HcFfnFn,
        scale: LayerSlot::HcFfnScale,
        base: LayerSlot::HcFfnBase,
        norm: LayerSlot::FfnNorm,
        x: Buf::AfterAttnHc,
        flat: Buf::FlatHc,
        mix: Buf::HcMix,
        split: Buf::HcSplit,
        cur: Buf::FfnCur,
        normed: Buf::FfnNorm,
        rows: 1,
    }
}

/// Normalise the streams, compute the mixing coefficients, mix and normalise again.
pub open spec fn hc_in_steps(h: HcIn) -> Seq<Step> {
    let w = |s: LayerSlot| Weight::Layer(h.layer, s);
    seq![
        Step::RmsNormPlain { x: h.x, out: h.flat, n: HC_DIM as u32, rows: h.rows },
        Step::Need(w(h.mix_w)),
        Step::MatmulF16 {
            w: w(h.mix_w),
            x: h.flat,
            out: h.mix,
            in_dim: HC_DIM as u64,
            out_dim: MIX_HC as u64,
            n_tok: h.rows as u64,
        },
        Step::Need(w(h.scale)),
        Step::Need(w(h.base)),
        Step::Need(w(h.norm)),
        Step::HcSplitNorm {
            mix: h.mix,
            scale: w(h.scale),
            base: w(h.base),
            residual: h.x,
            norm: w(h.norm),
            split: h.split,
            cur: h.cur,
            normed: h.normed,
            rows: h.rows,
        },
    ]
}

/// Appends the steps that make the input of a block.
pub fn push_hc_in(h: &HcIn, out: &mut Vec<Step>)
    ensures
        final(out)@ == old(out)@ + hc_in_steps(*h),
{
    out.push(Step::RmsNormPlain { x: h.x, out: h.flat, n: HC_DIM as u32, rows: h.rows });
    out.push(Step::Need(Weight::Layer(h.layer, h.mix_w)));
    out.push(
        Step::MatmulF16 {
            w: Weight::Layer(h.layer, h.mix_w),
            x: h.flat,
            out: h.mix,
            in_dim: HC_DIM as u64,
            out_dim: MIX_HC as u64,
            n_tok: h.rows as u64,
        },
    );
    out.push(Step::Need(Weight::Layer(h.layer, h.scale)));
    out.push(Step::Need(Weight::Layer(h.layer, h.base)));
    out.push(Step::Need(Weight::Layer(h.layer, h.norm)));
    out.push(
        Step::HcSplitNorm {
            mix: h.mix,
            scale: Weight::Layer(h.layer, h.scale),
            base: Weight::Layer(h.layer, h.base),
            residual: h.x,
            norm: Weight::Layer(h.layer, h.norm),
            split: h.split,
            cur: h.cur,
            normed: h.normed,
            rows: h.rows,
        },
    );
    assert(out@ =~= old(out)@ + hc_in_steps(*h));
}

/// Quantize a row of one token.
pub open spec fn quantize_one(x: Buf, in_dim: u64, blocks: u64) -> Step {
    Step::QuantizeQ8 { x, xq: Buf::XqI8, xscale: Buf::Xscale, in_dim, blocks, rows: 1 }
}

/// Project the quantized row of one token.
pub open spec fn project_one(w: Weight, out: Buf, in_dim: u64, out_dim: u64, blocks: u64) -> Step {
    Step::MatmulQ8 { w, xq: Buf::XqI8, xscale: Buf::Xscale, out, in_dim, out_dim, blocks }
}

/// Forward rotary embedding of a layer's rows from `pos` on.
pub open spec fn rope_steps_of(
    x: Buf,
    n_tok: u32,
    n_head: u32,
    head_dim: u32,
    pos: u32,
    il: usize,
) -> Step {
    Step::Rope {
        x,
        n_tok,
        n_head,
        head_dim,
        pos,
        n_ctx_orig: ROPE_ORIG_CTX,
        inverse: false,
        layer: il,
    }
}

/// Queries and keys of one token: projected, normalised, rotated; the key is stored.
pub open spec fn qkv_steps(il: usize, pos: u32) -> Seq<Step> {
    let w = |s: LayerSlot| Weight::Layer(il, s);
    seq![
        Step::Need(w(LayerSlot::AttnQA)),
        quantize_one(Buf::AttnNorm, N_EMBD as u64, BLOCKS_EMBD),
        project_one(
            w(LayerSlot::AttnQA),
            Buf::Qr,
            N_EMBD as u64,
            Q_RANK as u64,
            BLOCKS_EMBD,
        ),
        Step::Need(w(LayerSlot::AttnKv)),
        project_one(
            w(LayerSlot::AttnKv),
            Buf::KvRaw,
            N_EMBD as u64,
            N_HEAD_DIM as u64,
            BLOCKS_EMBD,
        ),
        Step::Need(w(LayerSlot::AttnQANorm)),
        Step::Need(w(LayerSlot::AttnKvANorm)),
        Step::QkvNorm {
            qr: Buf::Qr,
            qr_w: w(LayerSlot::AttnQANorm),
            qr_out: Buf::QrNorm,
            kv: Buf::KvRaw,
            kv_w: w(LayerSlot::AttnKvANorm),
            kv_out: Buf::Kv,
            rows: 1,
        },
        Step::Need(w(LayerSlot::AttnQB)),
        quantize_one(Buf::QrNorm, Q_RANK as u64, BLOCKS_QRANK),
        project_one(w(LayerSlot::AttnQB), Buf::Q, Q_RANK as u64, Q_DIM as u64, BLOCKS_QRANK),
        Step::HeadNorm {
            x: Buf::Q,
            n_tok: 1,
            n_head: N_HEAD as u32,
            head_dim: N_HEAD_DIM as u32,
        },
        rope_steps_of(Buf::Q, 1, N_HEAD as u32, N_HEAD_DIM as u32, pos, il),
        rope_steps_of(Buf::Kv, 1, N_HEAD_KV as u32, N_HEAD_DIM as u32, pos, il),
        Step::StoreRaw {
            kv: Buf::Kv,
            cache: Buf::RawCache(il),
            raw_cap: N_SWA as u32,
            pos,
            n_tok: 1,
        },
    ]
}

/// Appends the steps for queries and keys of one token.
pub fn push_qkv(il: usize, pos: u32, out: &mut Vec<Step>)
    ensures
        final(out)@ == old(out)@ + qkv_steps(il, pos),
{
    out.push(Step::Need(Weight::Layer(il, LayerSlot::AttnQA)));
    push_quantize(Buf::AttnNorm, N_EMBD as u64, BLOCKS_EMBD, out);
    push_matmul(
        Weight::Layer(il, LayerSlot::AttnQA),
        Buf::Qr,
        N_EMBD as u64,
        Q_RANK as u64,
        BLOCKS_EMBD,
        out,
    );
    out.push(Step::Need(Weight::Layer(il, LayerSlot::AttnKv)));
    push_matmul(
        Weight::Layer(il, LayerSlot::AttnKv),
        Buf::KvRaw,
        N_EMBD as u64,
        N_HEAD_DIM as u64,
        BLOCKS_EMBD,
        out,
    );
    out.push(Step::Need(Weight::Layer(il, LayerSlot::AttnQANorm)));
    out.push(Step::Need(Weight::Layer(il, LayerSlot::AttnKvANorm)));
    out.push(
        Step::QkvNorm {
            qr: Buf::Qr,
            qr_w: Weight::Layer(il, LayerSlot::AttnQANorm),
            qr_out: Buf::QrNorm,
            kv: Buf::KvRaw,
            kv_w: Weight::Layer(il, LayerSlot::AttnKvANorm),
            kv_out: Buf::Kv,
            rows: 1,
        },
    );
    out.push(Step::Need(Weight::Layer(il, LayerSlot::AttnQB)));
    push_quantize(Buf::QrNorm, Q_RANK as u64, BLOCKS_QRANK, out);
    push_matmul(
        Weight::Layer(il, LayerSlot::AttnQB),
        Buf::Q,
        Q_RANK as u64,
        Q_DIM as u64,
        BLOCKS_QRANK,
        out,
    );
    out.push(
        Step::HeadNorm {
            x: Buf::Q,
            n_tok: 1,
            n_head: N_HEAD as u32,
            head_dim: N_HEAD_DIM as u32,
        },
    );
    push_rope(Buf::Q, 1, N_HEAD as u32, N_HEAD_DIM as u32, pos, il, out);
    push_rope(Buf::Kv, 1, N_HEAD_KV as u32, N_HEAD_DIM as u32, pos, il, out);
    out.push(
        Step::StoreRaw {
            kv: Buf::Kv,
            cache: Buf::RawCache(il),
            raw_cap: N_SWA as u32,
            pos,
            n_tok: 1,
        },
    );
    assert(out@ =~= old(out)@ + qkv_steps(il, pos));
}

fn push_quantize(x: Buf, in_dim: u64, blocks: u64, out: &mut Vec<Step>)
    ensures
        final(out)@ == old(out)@.push(quantize_one(x, in_dim, blocks)),
{
    out.push(
        Step::QuantizeQ8 { x, xq: Buf::XqI8, xscale: Buf::Xscale, in_dim, blocks, rows: 1 },
    );
}

fn push_matmul(w: Weight, dst: Buf, in_dim: u64, out_dim: u64, blocks: u64, out: &mut Vec<Step>)
    ensures
        final(out)@ == old(out)@.push(project_one(w, dst, in_dim, out_dim, blocks)),
{
    out.push(
        Step::MatmulQ8 {
            w,
            xq: Buf::XqI8,
            xscale: Buf::Xscale,
            out: dst,
            in_dim,
            out_dim,
            blocks,
        },
    );
}

/// Appends the forward rotary embedding of a layer's rows.
pub fn push_rope(
    x: Buf,
    n_tok: u32,
    n_head: u32,
    head_dim: u32,
    pos: u32,
    il: usize,
    out: &mut Vec<Step>,
)
    ensures
        final(out)@ == old(out)@.push(rope_steps_of(x, n_tok, n_head, head_dim, pos, il)),
{
    out.push(
        Step::Rope {
            x,
            n_tok,
            n_head,
            head_dim,
            pos,
            n_ctx_orig: ROPE_ORIG_CTX,
            inverse: false,
            layer: il,
        },
    );
}

/// The layer has an indexer.
pub open spec fn has_indexer(w: ModelWeights, il: int) -> bool {
    ratio_of(il) == 4 && holds(w, il, LayerSlot::IndexerAttnQB)
}

/// Indexer queries and head weights of one token.
pub open spec fn index_query_steps(w: ModelWeights, il: usize, pos: u32) -> Seq<Step> {
    if has_indexer(w, il as int) {
        seq![
            Step::Need(Weight::Layer(il, LayerSlot::IndexerAttnQB)),
            Step::MatmulF16 {
                w: Weight::Layer(il, LayerSlot::IndexerAttnQB),
                x: Buf::QrNorm,
                out: Buf::IndexerQ,
                in_dim: Q_RANK as u64,
                out_dim: INDEXER_Q_DIM as u64,
                n_tok: 1,
            },
            rope_steps_of(
                Buf::IndexerQ,
                1,
                N_INDEXER_HEAD as u32,
                N_INDEXER_HEAD_DIM as u32,
                pos,
                il,
            ),
            Step::Need(Weight::Layer(il, LayerSlot::IndexerProj)),
            Step::MatmulF16 {
                w: Weight::Layer(il, LayerSlot::IndexerProj),
                x: Buf::AttnCur,
                out: Buf::IndexerWeights,
                in_dim: N_EMBD as u64,
                out_dim: N_INDEXER_HEAD as u64,
                n_tok: 1,
            },
        ]
    } else {
        Seq::empty()
    }
}

/// Appends the steps for indexer queries of one token.
pub fn push_index_query(w: &ModelWeights, il: usize, pos: u32, out: &mut Vec<Step>)
    requires
        w.wf(),
        il < N_LAYER,
    ensures
        final(out)@ == old(out)@ + index_query_steps(*w, il, pos),
{
    if compress_ratio(il) == 4 && has_slot(w, il, LayerSlot::IndexerAttnQB) {
        out.push(Step::Need(Weight::Layer(il, LayerSlot::IndexerAttnQB)));
        out.push(
            Step::MatmulF16 {
                w: Weight::Layer(il, LayerSlot::IndexerAttnQB),
                x: Buf::QrNorm,
                out: Buf::IndexerQ,
                in_dim: Q_RANK as u64,
                out_dim: INDEXER_Q_DIM as u64,
                n_tok: 1,
            },
        );
        push_rope(
            Buf::IndexerQ,
            1,
            N_INDEXER_HEAD as u32,
            N_INDEXER_HEAD_DIM as u32,
            pos,
            il,
            out,
        );
        out.push(Step::Need(Weight::Layer(il, LayerSlot::IndexerProj)));
        out.push(
            Step::MatmulF16 {
                w: Weight::Layer(il, LayerSlot::IndexerProj),
                x: Buf::AttnCur,
                out: Buf::IndexerWeights,
                in_dim: N_EMBD as u64,
                out_dim: N_INDEXER_HEAD as u64,
                n_tok: 1,
            },
        );
    }
    assert(out@ =~= old(out)@ + index_query_steps(*w, il, pos));
}

/// Rows of the sliding window that the token at `pos` sees.
pub open spec fn raw_count(pos: int) -> int {
    if pos + 1 < N_SWA {
        pos + 1
    } else {
        N_SWA as int
    }
}

/// The place of the oldest of those rows in the ring.
pub open spec fn raw_first(pos: int) -> int {
    (pos + 1 - raw_count(pos)) % N_SWA as int
}

/// How many rows of the window the token at `pos` sees, and where the oldest stands in the ring.
pub fn raw_window(pos: u32) -> (r: (u32, u32))
    requires
        pos < u32::MAX,
    ensures
        r.0 == raw_count(pos as int),
        r.1 == raw_first(pos as int),
{
    let cap: u32 = N_SWA as u32;
    let n_raw: u32 = if pos + 1 < cap {
        pos + 1
    } else {
        cap
    };
    (n_raw, (pos + 1 - n_raw) % cap)
}

/// Attention over the window and all compressed rows.
pub open spec fn mixed_step(il: usize, pos: u32, n_comp: u32) -> Step {
    Step::DecodeMixed {
        q: Buf::Q,
        raw: Buf::RawCache(il),
        comp: Buf::AttnCompCache(il),
        sinks: Weight::Layer(il, LayerSlot::AttnSinks),
        heads: Buf::Heads,
        pos,
        n_raw: raw_count(pos as int) as u32,
        raw_cap: N_SWA as u32,
        raw_start: raw_first(pos as int) as u32,
        n_comp,
        window: N_SWA as u32,
        ratio: ratio_of(il as int),
    }
}

/// Appends attention over the window and all compressed rows.
pub fn push_mixed(il: usize, pos: u32, n_comp: u32, out: &mut Vec<Step>)
    requires
        pos < u32::MAX,
    ensures
        final(out)@ == old(out)@.push(mixed_step(il, pos, n_comp)),
{
    let (n_raw, raw_start) = raw_window(pos);
    out.push(
        Step::DecodeMixed {
            q: Buf::Q,
            raw: Buf::RawCache(il),
            comp: Buf::AttnCompCache(il),
            sinks: Weight::Layer(il, LayerSlot::AttnSinks),
            heads: Buf::Heads,
            pos,
            n_raw,
            raw_cap: N_SWA as u32,
            raw_start,
            n_comp,
            window: N_SWA as u32,
            ratio: compress_ratio(il),
        },
    );
}

/// Compressed rows that attention in a layer can see: none in layers that keep none.
pub open spec fn seen_rows(il: int, row: u32) -> u32 {
    if ratio_of(il) != 0 {
        row
    } else {
        0
    }
}

/// Attention of one token. Where the layer has an indexer and more compressed rows than it
/// picks, the rows are scored and the best are attended to; otherwise all are.
pub open spec fn attention_steps(w: ModelWeights, il: usize, pos: u32, row: u32) -> Seq<Step> {
    let n_comp = seen_rows(il as int, row);
    let need = Step::Need(Weight::Layer(il, LayerSlot::AttnSinks));
    if has_indexer(w, il as int) && n_comp > N_INDEXER_TOP_K {
        seq![
            need,
            Step::IndexScore {
                q: Buf::IndexerQ,
                weights: Buf::IndexerWeights,
                comp: Buf::IndexCompCache(il),
                scores: Buf::IndexerScores,
                n_comp,
                pos,
                ratio: 4,
                causal: true,
            },
            Step::IndexTopk {
                scores: Buf::IndexerScores,
                topk: Buf::IndexerTopk,
                n_comp,
                top_k: N_INDEXER_TOP_K as u32,
                n_sort: next_pow2(n_comp as int) as u32,
            },
            Step::IndexedMixed {
                q: Buf::Q,
                raw: Buf::RawCache(il),
                comp: Buf::AttnCompCache(il),
                topk: Buf::IndexerTopk,
                sinks: Weight::Layer(il, LayerSlot::AttnSinks),
                heads: Buf::Heads,
                pos,
                n_raw: raw_count(pos as int) as u32,
                raw_cap: N_SWA as u32,
                raw_start: raw_first(pos as int) as u32,
                n_comp,
                top_k: N_INDEXER_TOP_K as u32,
                window: N_SWA as u32,
                ratio: 4,
            },
        ]
    } else {
        seq![need, mixed_step(il, pos, n_comp)]
    }
}

/// Appends the attention of one token.
pub fn push_attention(w: &ModelWeights, il: usize, pos: u32, row: u32, out: &mut Vec<Step>)
    requires
        w.wf(),
        il < N_LAYER,
        pos < u32::MAX,
        row <= 0x8000_0000,
    ensures
        final(out)@ == old(out)@ + attention_steps(*w, il, pos, row),
{
    let ratio: u32 = compress_ratio(il);
    let n_comp: u32 = if ratio != 0 {
        row
    } else {
        0
    };
    out.push(Step::Need(Weight::Layer(il, LayerSlot::AttnSinks)));
    if ratio == 4 && n_comp > N_INDEXER_TOP_K as u32 && has_slot(w, il, LayerSlot::IndexerAttnQB) {
        let (n_raw, raw_start) = raw_window(pos);
        out.push(
            Step::IndexScore {
                q: Buf::IndexerQ,
                weights: Buf::IndexerWeights,
                comp: Buf::IndexCompCache(il),
                scores: Buf::IndexerScores,
                n_comp,
                pos,
                ratio: 4,
                causal: true,
            },
        );
        let n_sort: u32 = next_power_of_two(n_comp);
        out.push(
            Step::IndexTopk {
                scores: Buf::IndexerScores,
                topk: Buf::IndexerTopk,
                n_comp,
                top_k: N_INDEXER_TOP_K as u32,
                n_sort,
            },
        );
        out.push(
            Step::IndexedMixed {
                q: Buf::Q,
                raw: Buf::RawCache(il),
                comp: Buf::AttnCompCache(il),
                topk: Buf::IndexerTopk,
                sinks: Weight::Layer(il, LayerSlot::AttnSinks),
                heads: Buf::Heads,
                pos,
                n_raw,
                raw_cap: N_SWA as u32,
                raw_start,
                n_comp,
                top_k: N_INDEXER_TOP_K as u32,
                window: N_SWA as u32,
                ratio: 4,
            },
        );
    } else {
        push_mixed(il, pos, n_comp, out);
    }
    assert(out@ =~= old(out)@ + attention_steps(*w, il, pos, row));
}

/// Attention output of one token: undo the rotation of the values, project down by groups of
/// heads, project up and mix into the residual streams.
pub open spec fn attn_out_steps(il: usize, pos: u32) -> Seq<Step> {
    let w = |s: LayerSlot| Weight::Layer(il, s);
    seq![
        Step::Rope {
            x: Buf::Heads,
            n_tok: 1,
            n_head: N_HEAD as u32,
            head_dim: N_HEAD_DIM as u32,
            pos,
            n_ctx_orig: if ratio_of(il as int) != 0 {
                ROPE_ORIG_CTX
            } else {
                0
            },
            inverse: true,
            layer: il,
        },
        Step::QuantizeQ8 {
            x: Buf::Heads,
            xq: Buf::XqI8,
            xscale: Buf::Xscale,
            in_dim: GROUP_DIM as u64,
            blocks: BLOCKS_GROUP,
            rows: N_OUT_GROUP as u32,
        },
        Step::Need(w(LayerSlot::AttnOutputA)),
        Step::MatmulQ8Grouped {
            w: w(LayerSlot::AttnOutputA),
            xq: Buf::XqI8,
            xscale: Buf::Xscale,
            out: Buf::AttnLow,
            group_dim: GROUP_DIM as u64,
            rank: N_LORA_O as u64,
            n_groups: N_OUT_GROUP as u32,
            blocks: BLOCKS_GROUP,
        },
        quantize_one(Buf::AttnLow, LOW_DIM as u64, BLOCKS_LOW),
        Step::Need(w(LayerSlot::AttnOutputB)),
        Step::MatmulQ8HcExpand {
            w: w(LayerSlot::AttnOutputB),
            xq: Buf::XqI8,
            xscale: Buf::Xscale,
            residual: Buf::CurHc,
            split: Buf::HcSplit,
            out: Buf::AttnOut,
            add: Buf::Heads,
            out_hc: Buf::AfterAttnHc,
            in_dim: LOW_DIM as u64,
            out_dim: N_EMBD as u64,
            blocks: BLOCKS_LOW,
            has_add: false,
        },
    ]
}

/// Appends the attention output of one token.
pub fn push_attn_out(il: usize, pos: u32, out: &mut Vec<Step>)
    ensures
        final(out)@ == old(out)@ + attn_out_steps(il, pos),
{
    let n_ctx_orig: u32 = if compress_ratio(il) != 0 {
        ROPE_ORIG_CTX
    } else {
        0
    };
    out.push(
        Step::Rope {
            x: Buf::Heads,
            n_tok: 1,
            n_head: N_HEAD as u32,
            head_dim: N_HEAD_DIM as u32,
            pos,
            n_ctx_orig,
            inverse: true,
            layer: il,
        },
    );
    out.push(
        Step::QuantizeQ8 {
            x: Buf::Heads,
            xq: Buf::XqI8,
            xscale: Buf::Xscale,
            in_dim: GROUP_DIM as u64,
            blocks: BLOCKS_GROUP,
            rows: N_OUT_GROUP as u32,
        },
    );
    out.push(Step::Need(Weight::Layer(il, LayerSlot::AttnOutputA)));
    out.push(
        Step::MatmulQ8Grouped {
            w: Weight::Layer(il, LayerSlot::AttnOutputA),
            xq: Buf::XqI8,
            xscale: Buf::Xscale,
            out: Buf::AttnLow,
            group_dim: GROUP_DIM as u64,
            rank: N_LORA_O as u64,
            n_groups: N_OUT_GROUP as u32,
            blocks: BLOCKS_GROUP,
        },
    );
    push_quantize(Buf::AttnLow, LOW_DIM as u64, BLOCKS_LOW, out);
    out.push(Step::Need(Weight::Layer(il, LayerSlot::AttnOutputB)));
    out.push(
        Step::MatmulQ8HcExpand {
            w: Weight::Layer(il, LayerSlot::AttnOutputB),
            xq: Buf::XqI8,
            xscale: Buf::Xscale,
            residual: Buf::CurHc,
            split: Buf::HcSplit,
            out: Buf::AttnOut,
            add: Buf::Heads,
            out_hc: Buf::AfterAttnHc,
            in_dim: LOW_DIM as u64,
            out_dim: N_EMBD as u64,
            blocks: BLOCKS_LOW,
            has_add: false,
        },
    );
    assert(out@ =~= old(out)@ + attn_out_steps(il, pos));
}

/// The shared expert of one token, where the layer has one.
pub open spec fn shared_steps(w: ModelWeights, il: usize) -> Seq<Step> {
    let t = |s: LayerSlot| Weight::Layer(il, s);
    if holds(w, il as int, LayerSlot::FfnGateShexp) {
        seq![
            quantize_one(Buf::FfnNorm, N_EMBD as u64, BLOCKS_EMBD),
            Step::Need(t(LayerSlot::FfnGateShexp)),
            project_one(
                t(LayerSlot::FfnGateShexp),
                Buf::SharedGate,
                N_EMBD as u64,
                N_FF_EXP as u64,
                BLOCKS_EMBD,
            ),
            Step::Need(t(LayerSlot::FfnUpShexp)),
            project_one(
                t(LayerSlot::FfnUpShexp),
                Buf::SharedUp,
                N_EMBD as u64,
                N_FF_EXP as u64,
                BLOCKS_EMBD,
            ),
            Step::Swiglu {
                gate: Buf::SharedGate,
                up: Buf::SharedUp,
                out: Buf::SharedMid,
                n: N_FF_EXP,
            },
            Step::Need(t(LayerSlot::FfnDownShexp)),
            quantize_one(Buf::SharedMid, N_FF_EXP as u64, BLOCKS_FF),
            project_one(
                t(LayerSlot::FfnDownShexp),
                Buf::SharedOut,
                N_FF_EXP as u64,
                N_EMBD as u64,
                BLOCKS_FF,
            ),
        ]
    } else {
        Seq::empty()
    }
}

/// Appends the shared expert of one token.
pub fn push_shared(w: &ModelWeights, il: usize, out: &mut Vec<Step>)
    requires
        w.wf(),
        il < N_LAYER,
    ensures
        final(out)@ == old(out)@ + shared_steps(*w, il),
{
    if has_slot(w, il, LayerSlot::FfnGateShexp) {
        push_quantize(Buf::FfnNorm, N_EMBD as u64, BLOCKS_EMBD, out);
        out.push(Step::Need(Weight::Layer(il, LayerSlot::FfnGateShexp)));
        push_matmul(
            Weight::Layer(il, LayerSlot::FfnGateShexp),
            Buf::SharedGate,
            N_EMBD as u64,
            N_FF_EXP as u64,
            BLOCKS_EMBD,
            out,
        );
        out.push(Step::Need(Weight::Layer(il, LayerSlot::FfnUpShexp)));
        push_matmul(
            Weight::Layer(il, LayerSlot::FfnUpShexp),
            Buf::SharedUp,
            N_EMBD as u64,
            N_FF_EXP as u64,
            BLOCKS_EMBD,
            out,
        );
        out.push(
            Step::Swiglu {
                gate: Buf::SharedGate,
                up: Buf::SharedUp,
                out: Buf::SharedMid,
                n: N_FF_EXP,
            },
        );
        out.push(Step::Need(Weight::Layer(il, LayerSlot::FfnDownShexp)));
        push_quantize(Buf::SharedMid, N_FF_EXP as u64, BLOCKS_FF, out);
        push_matmul(
            Weight::Layer(il, LayerSlot::FfnDownShexp),
            Buf::SharedOut,
            N_FF_EXP as u64,
            N_EMBD as u64,
            BLOCKS_FF,
            out,
        );
    }
    assert(out@ =~= old(out)@ + shared_steps(*w, il));
}

/// The choice of experts: logits, then the best by score, with the expert bias and the token
/// table where the file has them. Without them other buffers stand in, which are not read.
pub open spec fn router_steps(w: ModelWeights, il: usize, token: i32) -> Seq<Step> {
    let t = |s: LayerSlot| Weight::Layer(il, s);
    let biased = holds(w, il as int, LayerSlot::FfnExpProbsB);
    let hashed = holds(w, il as int, LayerSlot::FfnGateTid2eid);
    seq![
        Step::Need(t(LayerSlot::FfnGateInp)),
        Step::MatmulF16 {
            w: t(LayerSlot::FfnGateInp),
            x: Buf::FfnNorm,
            out: Buf::RouterLogits,
            in_dim: N_EMBD as u64,
            out_dim: N_EXPERT as u64,
            n_tok: 1,
        },
    ] + (if biased {
        seq![Step::Need(t(LayerSlot::FfnExpProbsB))]
    } else {
        Seq::empty()
    }) + (if hashed {
        seq![Step::Need(t(LayerSlot::FfnGateTid2eid))]
    } else {
        Seq::empty()
    }) + seq![
        Step::RouterSelect {
            logits: Buf::RouterLogits,
            bias: if biased {
                Operand::Tensor(t(LayerSlot::FfnExpProbsB))
            } else {
                Operand::Buffer(Buf::RouterLogits)
            },
            hash: if hashed {
                Operand::Tensor(t(LayerSlot::FfnGateTid2eid))
            } else {
                Operand::Buffer(Buf::NoTokens)
            },
            probs: Buf::RouterProbs,
            selected: Buf::RouterSelected,
            weights: Buf::RouterWeights,
            token,
            has_bias: biased,
        },
    ]
}

/// Appends the choice of experts.
fn push_router(w: &ModelWeights, il: usize, token: i32, out: &mut Vec<Step>)
    requires
        w.wf(),
        il < N_LAYER,
    ensures
        final(out)@ == old(out)@ + router_steps(*w, il, token),
{
    out.push(Step::Need(Weight::Layer(il, LayerSlot::FfnGateInp)));
    out.push(
        Step::MatmulF16 {
            w: Weight::Layer(il, LayerSlot::FfnGateInp),
            x: Buf::FfnNorm,
            out: Buf::RouterLogits,
            in_dim: N_EMBD as u64,
            out_dim: N_EXPERT as u64,
            n_tok: 1,
        },
    );
    let has_bias: bool = has_slot(w, il, LayerSlot::FfnExpProbsB);
    let bias: Operand = if has_bias {
        out.push(Step::Need(Weight::Layer(il, LayerSlot::FfnExpProbsB)));
        Operand::Tensor(Weight::Layer(il, LayerSlot::FfnExpProbsB))
    } else {
        Operand::Buffer(Buf::RouterLogits)
    };
    let hash: Operand = if has_slot(w, il, LayerSlot::FfnGateTid2eid) {
        out.push(Step::Need(Weight::Layer(il, LayerSlot::FfnGateTid2eid)));
        Operand::Tensor(Weight::Layer(il, LayerSlot::FfnGateTid2eid))
    } else {
        Operand::Buffer(Buf::NoTokens)
    };
    out.push(
        Step::RouterSelect {
            logits: Buf::RouterLogits,
            bias,
            hash,
            probs: Buf::RouterProbs,
            selected: Buf::RouterSelected,
            weights: Buf::RouterWeights,
            token,
            has_bias,
        },
    );
    assert(out@ =~= old(out)@ + router_steps(*w, il, token));
}

/// The chosen experts: gate, up and product, then down and sum.
pub open spec fn expert_steps(il: usize) -> Seq<Step> {
    let t = |s: LayerSlot| Weight::Layer(il, s);
    seq![
        Step::Q8kQuantize {
            x: Buf::FfnNorm,
            out: Buf::MoeXq,
            in_dim: N_EMBD as u32,
            blocks: MOE_XQ_BLOCKS,
            rows: 1,
        },
        Step::Need(t(LayerSlot::FfnGateExps)),
        Step::Need(t(LayerSlot::FfnUpExps)),
        Step::MoeGateUpMid {
            w_gate: t(LayerSlot::FfnGateExps),
            w_up: t(LayerSlot::FfnUpExps),
            xq: Buf::MoeXq,
            selected: Buf::RouterSelected,
            weights: Buf::RouterWeights,
            gate: Buf::RoutedGate,
            up: Buf::RoutedUp,
            mid: Buf::RoutedMid,
            expert_bytes: GATE_EXPERT_BYTES,
            row_bytes: GATE_ROW_BYTES,
        },
        Step::Q8kQuantize {
            x: Buf::RoutedMid,
            out: Buf::MoeMidq,
            in_dim: N_FF_EXP as u32,
            blocks: MOE_MID_BLOCKS,
            rows: N_EXPERT_USED as u32,
        },
        Step::Need(t(LayerSlot::FfnDownExps)),
        Step::MoeDownSum {
            w_down: t(LayerSlot::FfnDownExps),
            midq: Buf::MoeMidq,
            selected: Buf::RouterSelected,
            out: Buf::RoutedOut,
            expert_bytes: DOWN_EXPERT_BYTES,
            row_bytes: DOWN_ROW_BYTES,
        },
    ]
}

/// Appends the chosen experts.
fn push_experts(il: usize, out: &mut Vec<Step>)
    ensures
        final(out)@ == old(out)@ + expert_steps(il),
{
    out.push(
        Step::Q8kQuantize {
            x: Buf::FfnNorm,
            out: Buf::MoeXq,
            in_dim: N_EMBD as u32,
            blocks: MOE_XQ_BLOCKS,
            rows: 1,
        },
    );
    out.push(Step::Need(Weight::Layer(il, LayerSlot::FfnGateExps)));
    out.push(Step::Need(Weight::Layer(il, LayerSlot::FfnUpExps)));
    out.push(
        Step::MoeGateUpMid {
            w_gate: Weight::Layer(il, LayerSlot::FfnGateExps),
            w_up: Weight::Layer(il, LayerSlot::FfnUpExps),
            xq: Buf::MoeXq,
            selected: Buf::RouterSelected,
            weights: Buf::RouterWeights,
            gate: Buf::RoutedGate,
            up: Buf::RoutedUp,
            mid: Buf::RoutedMid,
            expert_bytes: GATE_EXPERT_BYTES,
            row_bytes: GATE_ROW_BYTES,
        },
    );
    out.push(
        Step::Q8kQuantize {
            x: Buf::RoutedMid,
            out: Buf::MoeMidq,
            in_dim: N_FF_EXP as u32,
            blocks: MOE_MID_BLOCKS,
            rows: N_EXPERT_USED as u32,
        },
    );
    out.push(Step::Need(Weight::Layer(il, LayerSlot::FfnDownExps)));
    out.push(
        Step::MoeDownSum {
            w_down: Weight::Layer(il, LayerSlot::FfnDownExps),
            midq: Buf::MoeMidq,
            selected: Buf::RouterSelected,
            out: Buf::RoutedOut,
            expert_bytes: DOWN_EXPERT_BYTES,
            row_bytes: DOWN_ROW_BYTES,
        },
    );
    assert(out@ =~= old(out)@ + expert_steps(il));
}

/// The mixture of experts of one token, where the layer has a router.
pub open spec fn moe_steps(w: ModelWeights, il: usize, token: i32) -> Seq<Step> {
    if holds(w, il as int, LayerSlot::FfnGateInp) {
        router_steps(w, il, token) + expert_steps(il)
    } else {
        Seq::empty()
    }
}

/// The outputs of the experts are mixed into the residual streams, which become the input of
/// the next layer.
pub open spec fn merge_steps(w: ModelWeights, il: usize) -> Seq<Step> {
    seq![
        Step::HcExpand {
            block: Buf::SharedOut,
            add: Buf::RoutedOut,
            residual: Buf::AfterAttnHc,
            split: Buf::HcSplit,
            out: Buf::AfterFfnHc,
            has_add: holds(w, il as int, LayerSlot::FfnGateInp),
        },
        Step::Swap { a: Buf::CurHc, b: Buf::AfterFfnHc },
    ]
}

/// What follows attention in a layer, for one token.
pub open spec fn out_and_ffn_steps(w: ModelWeights, il: usize, pos: u32, token: i32) -> Seq<Step> {
    attn_out_steps(il, pos) + hc_in_steps(ffn_in(il)) + shared_steps(w, il) + moe_steps(
        w,
        il,
        token,
    ) + merge_steps(w, il)
}

/// Appends what follows attention in a layer: attention output, shared expert, mixture of
/// experts. Takes the heads, the residual streams and the mixing coefficients of the token from
/// their buffers, and leaves the next layer's input in place of the residual streams.
pub fn decode_attn_out_and_ffn(
    w: &ModelWeights,
    il: usize,
    pos: u32,
    token: i32,
    out: &mut Vec<Step>,
)
    requires
        w.wf(),
        il < N_LAYER,
    ensures
        final(out)@ == old(out)@ + out_and_ffn_steps(*w, il, pos, token),
{
    push_attn_out(il, pos, out);
    let h = HcIn {
        layer: il,
        mix_w: LayerSlot::HcFfnFn,
        scale: LayerSlot::HcFfnScale,
        base: LayerSlot::HcFfnBase,
        norm: LayerSlot::FfnNorm,
        x: Buf::AfterAttnHc,
        flat: Buf::FlatHc,
        mix: Buf::HcMix,
        split: Buf::HcSplit,
        cur: Buf::FfnCur,
        normed: Buf::FfnNorm,
        rows: 1,
    };
    push_hc_in(&h, out);
    push_shared(w, il, out);
    let has_moe: bool = has_slot(w, il, LayerSlot::FfnGateInp);
    let ghost before = out@;
    if has_moe {
        push_router(w, il, token, out);
        push_experts(il, out);
    }
    assert(out@ =~= before + moe_steps(*w, il, token));
    out.push(
        Step::HcExpand {
            block: Buf::SharedOut,
            add: Buf::RoutedOut,
            residual: Buf::AfterAttnHc,
            split: Buf::HcSplit,
            out: Buf::AfterFfnHc,
            has_add: has_moe,
        },
    );
    out.push(Step::Swap { a: Buf::CurHc, b: Buf::AfterFfnHc });
    assert(out@ =~= old(out)@ + out_and_ffn_steps(*w, il, pos, token));
}

} // verus!
