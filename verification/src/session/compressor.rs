//! Plans for the compressors, which turn the tokens of a window into one row.
use vstd::prelude::*;

use crate::model::{
    LayerSlot, ModelWeights, Weight, N_EMBD, N_HEAD_DIM, N_INDEXER_HEAD_DIM, N_LAYER,
};
use crate::session::state::{has_slot, holds, MAX_CTX};
use crate::session::step::{compress_ratio, ratio_of, Buf, Step, ROPE_ORIG_CTX};

verus! {

/// The tensors and buffers of one of the two compressors of a layer.
#[derive(Clone, Copy)]
pub struct Compressor {
    pub layer: usize,
    pub kv: LayerSlot,
    pub gate: LayerSlot,
    pub ape: LayerSlot,
    pub norm: LayerSlot,
    pub head_dim: usize,
    pub state_kv: Buf,
    pub state_score: Buf,
    pub emit_pre: Buf,
    pub emit_post: Buf,
    pub cache: Buf,
}

/// The compressor of attention rows.
pub open spec fn attn_compressor(il: usize) -> Compressor {
    Compressor {
        layer: il,
        kv: LayerSlot::AttnCompressorKv,
        gate: LayerSlot::AttnCompressorGate,
        ape: LayerSlot::AttnCompressorApe,
        norm: LayerSlot::AttnCompressorNorm,
        head_dim: N_HEAD_DIM,
        state_kv: Buf::AttnStateKv(il),
        state_score: Buf::AttnStateScore(il),
        emit_pre: Buf::CompEmitPre,
        emit_post: Buf::CompEmitPost,
        cache: Buf::AttnCompCache(il),
    }
}

/// The compressor of the rows that the indexer scores.
pub open spec fn index_compressor(il: usize) -> Compressor {
    Compressor {
        layer: il,
        kv: LayerSlot::IndexerCompressorKv,
        gate: LayerSlot::IndexerCompressorGate,
        ape: LayerSlot::IndexerCompressorApe,
        norm: LayerSlot::IndexerCompressorNorm,
        head_dim: N_INDEXER_HEAD_DIM,
        state_kv: Buf::IndexStateKv(il),
        state_score: Buf::IndexStateScore(il),
        emit_pre: Buf::IndexCompEmitPre,
        emit_post: Buf::IndexCompEmitPost,
        cache: Buf::IndexCompCache(il),
    }
}

/// Width of a compressor's state row.
pub open spec fn width_of(c: Compressor) -> u32 {
    if ratio_of(c.layer as int) == 4 {
        (2 * c.head_dim) as u32
    } else {
        c.head_dim as u32
    }
}

/// Every token: project the normalised input and store it in the state, by its place in the
/// window.
pub open spec fn project_steps(c: Compressor, pos: u32) -> Seq<Step> {
    let w = |s: LayerSlot| Weight::Layer(c.layer, s);
    seq![
        Step::Need(w(c.kv)),
        Step::Need(w(c.gate)),
        Step::MatmulF16 {
            w: w(c.kv),
            x: Buf::AttnNorm,
            out: Buf::CompKvCur,
            in_dim: N_EMBD as u64,
            out_dim: width_of(c) as u64,
            n_tok: 1,
        },
        Step::MatmulF16 {
            w: w(c.gate),
            x: Buf::AttnNorm,
            out: Buf::CompScCur,
            in_dim: N_EMBD as u64,
            out_dim: width_of(c) as u64,
            n_tok: 1,
        },
        Step::Need(w(c.ape)),
        Step::CompressorStore {
            kv: Buf::CompKvCur,
            sc: Buf::CompScCur,
            state_kv: c.state_kv,
            state_score: c.state_score,
            ape: w(c.ape),
            head_dim: c.head_dim as u32,
            ratio: ratio_of(c.layer as int),
            pos,
        },
    ]
}

/// At the end of a window: pool the state, normalise, rotate by the position of the window's
/// first token, quantize, and write the row to the cache.
pub open spec fn emit_steps(c: Compressor, pos: u32, row: u32) -> Seq<Step> {
    let ratio = ratio_of(c.layer as int);
    seq![
        Step::CompressorPool {
            state_kv: c.state_kv,
            state_score: c.state_score,
            out: c.emit_pre,
            head_dim: c.head_dim as u32,
            ratio,
        },
        Step::Need(Weight::Layer(c.layer, c.norm)),
        Step::RmsNormWeight {
            x: c.emit_pre,
            w: Weight::Layer(c.layer, c.norm),
            out: c.emit_post,
            n: c.head_dim as u32,
            rows: 1,
        },
        Step::Rope {
            x: c.emit_post,
            n_tok: 1,
            n_head: 1,
            head_dim: c.head_dim as u32,
            pos: (pos + 1 - ratio) as u32,
            n_ctx_orig: ROPE_ORIG_CTX,
            inverse: false,
            layer: c.layer,
        },
        Step::Fp8Quantize { x: c.emit_post, head_dim: c.head_dim as u32 },
        Step::CopyAt {
            src: c.emit_post,
            dst: c.cache,
            n: c.head_dim,
            offset: (row * c.head_dim) as u32,
        },
    ]
}

/// The window moves on where rows overlap.
pub open spec fn shift_steps(c: Compressor) -> Seq<Step> {
    if ratio_of(c.layer as int) == 4 {
        seq![
            Step::CompressorShift4 {
                state_kv: c.state_kv,
                state_score: c.state_score,
                width: width_of(c),
            },
        ]
    } else {
        Seq::empty()
    }
}

/// The token at `pos` ends a window of the layer, and the cache has room for one more row.
pub open spec fn window_ends(il: int, pos: int, row: int, comp_cap: int) -> bool {
    ratio_of(il) != 0 && (pos + 1) % ratio_of(il) as int == 0 && row < comp_cap
}

/// The index compressor's steps for the token at `pos`, where `row` rows are in the cache.
pub open spec fn index_steps(w: ModelWeights, il: usize, pos: u32, row: u32, comp_cap: int) -> Seq<
    Step,
> {
    let c = index_compressor(il);
    if ratio_of(il as int) != 4 || !holds(w, il as int, LayerSlot::IndexerCompressorKv) {
        Seq::empty()
    } else if window_ends(il as int, pos as int, row as int, comp_cap) {
        project_steps(c, pos) + emit_steps(c, pos, row) + shift_steps(c)
    } else {
        project_steps(c, pos)
    }
}

/// A row of the layer is completed by the token at `pos`.
pub open spec fn emits(w: ModelWeights, il: int, pos: int, row: int, comp_cap: int) -> bool {
    holds(w, il, LayerSlot::AttnCompressorKv) && window_ends(il, pos, row, comp_cap)
}

/// The attention compressor's steps for the token at `pos`, where `row` rows are in the cache.
pub open spec fn attn_steps(w: ModelWeights, il: usize, pos: u32, row: u32, comp_cap: int) -> Seq<
    Step,
> {
    let c = attn_compressor(il);
    if ratio_of(il as int) == 0 || !holds(w, il as int, LayerSlot::AttnCompressorKv) {
        Seq::empty()
    } else if window_ends(il as int, pos as int, row as int, comp_cap) {
        project_steps(c, pos) + emit_steps(c, pos, row) + shift_steps(c) + seq![
            Step::EmitRow { layer: il },
        ]
    } else {
        project_steps(c, pos)
    }
}

/// Rows in the cache after the token at `pos`.
pub open spec fn next_row(w: ModelWeights, il: int, pos: int, row: u32, comp_cap: int) -> u32 {
    if emits(w, il, pos, row as int, comp_cap) {
        (row + 1) as u32
    } else {
        row
    }
}

/// Rows in the cache after the `n` tokens from `pos` on.
pub open spec fn rows_after(
    w: ModelWeights,
    il: int,
    pos: int,
    n: nat,
    row: u32,
    comp_cap: int,
) -> u32
    decreases n,
{
    if n == 0 {
        row
    } else {
        let rows = rows_after(w, il, pos, (n - 1) as nat, row, comp_cap);
        next_row(w, il, pos + n - 1, rows, comp_cap)
    }
}

/// Appends the steps that project and store a token.
fn push_project(c: &Compressor, pos: u32, out: &mut Vec<Step>)
    requires
        c.head_dim <= 512,
    ensures
        final(out)@ == old(out)@ + project_steps(*c, pos),
{
    let ratio: u32 = compress_ratio(c.layer);
    let width: u32 = if ratio == 4 {
        2 * c.head_dim as u32
    } else {
        c.head_dim as u32
    };
    out.push(Step::Need(Weight::Layer(c.layer, c.kv)));
    out.push(Step::Need(Weight::Layer(c.layer, c.gate)));
    out.push(
        Step::MatmulF16 {
            w: Weight::Layer(c.layer, c.kv),
            x: Buf::AttnNorm,
            out: Buf::CompKvCur,
            in_dim: N_EMBD as u64,
            out_dim: width as u64,
            n_tok: 1,
        },
    );
    out.push(
        Step::MatmulF16 {
            w: Weight::Layer(c.layer, c.gate),
            x: Buf::AttnNorm,
            out: Buf::CompScCur,
            in_dim: N_EMBD as u64,
            out_dim: width as u64,
            n_tok: 1,
        },
    );
    out.push(Step::Need(Weight::Layer(c.layer, c.ape)));
    out.push(
        Step::CompressorStore {
            kv: Buf::CompKvCur,
            sc: Buf::CompScCur,
            state_kv: c.state_kv,
            state_score: c.state_score,
            ape: Weight::Layer(c.layer, c.ape),
            head_dim: c.head_dim as u32,
            ratio,
            pos,
        },
    );
    assert(out@ =~= old(out)@ + project_steps(*c, pos));
}

/// Appends the steps that complete a row.
fn push_emit(c: &Compressor, pos: u32, row: u32, out: &mut Vec<Step>)
    requires
        c.head_dim <= 512,
        ratio_of(c.layer as int) <= pos + 1,
        pos < u32::MAX,
    ensures
        final(out)@ == old(out)@ + emit_steps(*c, pos, row) + shift_steps(*c),
{
    let ratio: u32 = compress_ratio(c.layer);
    let dim: u32 = c.head_dim as u32;
    assert(row * dim <= 0xFFFF_FFFF * 512) by (nonlinear_arith)
        requires
            row <= 0xFFFF_FFFF,
            dim <= 512,
    ;
    out.push(
        Step::CompressorPool {
            state_kv: c.state_kv,
            state_score: c.state_score,
            out: c.emit_pre,
            head_dim: dim,
            ratio,
        },
    );
    out.push(Step::Need(Weight::Layer(c.layer, c.norm)));
    out.push(
        Step::RmsNormWeight {
            x: c.emit_pre,
            w: Weight::Layer(c.layer, c.norm),
            out: c.emit_post,
            n: dim,
            rows: 1,
        },
    );
    out.push(
        Step::Rope {
            x: c.emit_post,
            n_tok: 1,
            n_head: 1,
            head_dim: dim,
            pos: pos + 1 - ratio,
            n_ctx_orig: ROPE_ORIG_CTX,
            inverse: false,
            layer: c.layer,
        },
    );
    out.push(Step::Fp8Quantize { x: c.emit_post, head_dim: dim });
    out.push(
        Step::CopyAt {
            src: c.emit_post,
            dst: c.cache,
            n: c.head_dim,
            offset: (row as u64 * dim as u64) as u32,
        },
    );
    assert(out@ =~= old(out)@ + emit_steps(*c, pos, row));
    if ratio == 4 {
        out.push(
            Step::CompressorShift4 {
                state_kv: c.state_kv,
                state_score: c.state_score,
                width: 2 * dim,
            },
        );
    }
    assert(out@ =~= old(out)@ + emit_steps(*c, pos, row) + shift_steps(*c));
}

/// The token at `pos` ends a window of the layer, and the cache has room for one more row.
fn is_window_end(il: usize, pos: u32, row: u32, comp_cap: usize) -> (r: bool)
    requires
        pos < u32::MAX,
    ensures
        r == window_ends(il as int, pos as int, row as int, comp_cap as int),
        r ==> ratio_of(il as int) <= pos + 1,
{
    let ratio: u32 = compress_ratio(il);
    ratio != 0 && (pos + 1) % ratio == 0 && (row as usize) < comp_cap
}

/// One step of the index compressor of layer `il` for the token at `pos`. It works on layers
/// with one row for every four tokens only. It completes rows together with the attention
/// compressor, whose counter it goes by.
pub fn run_index_compressor_step(
    w: &ModelWeights,
    il: usize,
    pos: u32,
    row: u32,
    comp_cap: usize,
    out: &mut Vec<Step>,
)
    requires
        w.wf(),
        il < N_LAYER,
        pos < u32::MAX,
    ensures
        final(out)@ == old(out)@ + index_steps(*w, il, pos, row, comp_cap as int),
{
    if compress_ratio(il) != 4 || !has_slot(w, il, LayerSlot::IndexerCompressorKv) {
        assert(out@ =~= old(out)@ + Seq::<Step>::empty());
        return ;
    }
    let c = Compressor {
        layer: il,
        kv: LayerSlot::IndexerCompressorKv,
        gate: LayerSlot::IndexerCompressorGate,
        ape: LayerSlot::IndexerCompressorApe,
        norm: LayerSlot::IndexerCompressorNorm,
        head_dim: N_INDEXER_HEAD_DIM,
        state_kv: Buf::IndexStateKv(il),
        state_score: Buf::IndexStateScore(il),
        emit_pre: Buf::IndexCompEmitPre,
        emit_post: Buf::IndexCompEmitPost,
        cache: Buf::IndexCompCache(il),
    };
    push_project(&c, pos, out);
    if is_window_end(il, pos, row, comp_cap) {
        push_emit(&c, pos, row, out);
        assert(out@ =~= old(out)@ + (project_steps(c, pos) + emit_steps(c, pos, row) + shift_steps(
            c,
        )));
    }
}

/// One step of the attention compressor of layer `il` for the token at `pos`: how many rows
/// are in the cache after it.
pub fn run_attn_compressor_step(
    w: &ModelWeights,
    il: usize,
    pos: u32,
    row: u32,
    comp_cap: usize,
    out: &mut Vec<Step>,
) -> (r: u32)
    requires
        w.wf(),
        il < N_LAYER,
        pos < u32::MAX,
        comp_cap <= MAX_CTX,
    ensures
        final(out)@ == old(out)@ + attn_steps(*w, il, pos, row, comp_cap as int),
        r == next_row(*w, il as int, pos as int, row, comp_cap as int),
{
    if compress_ratio(il) == 0 || !has_slot(w, il, LayerSlot::AttnCompressorKv) {
        assert(out@ =~= old(out)@ + Seq::<Step>::empty());
        return row;
    }
    let c = Compressor {
        layer: il,
        kv: LayerSlot::AttnCompressorKv,
        gate: LayerSlot::AttnCompressorGate,
        ape: LayerSlot::AttnCompressorApe,
        norm: LayerSlot::AttnCompressorNorm,
        head_dim: N_HEAD_DIM,
        state_kv: Buf::AttnStateKv(il),
        state_score: Buf::AttnStateScore(il),
        emit_pre: Buf::CompEmitPre,
        emit_post: Buf::CompEmitPost,
        cache: Buf::AttnCompCache(il),
    };
    push_project(&c, pos, out);
    if is_window_end(il, pos, row, comp_cap) {
        push_emit(&c, pos, row, out);
        out.push(Step::EmitRow { layer: il });
        assert(out@ =~= old(out)@ + (project_steps(c, pos) + emit_steps(c, pos, row) + shift_steps(
            c,
        ) + seq![Step::EmitRow { layer: il }]));
        row + 1
    } else {
        row
    }
}

} // verus!
