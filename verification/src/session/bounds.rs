//! Every operation of a plan stays within its buffers.
use vstd::prelude::*;

use crate::model::{
    LayerSlot, ModelWeights, Weight, N_EMBD, N_EXPERT, N_EXPERT_USED, N_FF_EXP, N_HC, N_HEAD_DIM,
    N_INDEXER_HEAD, N_INDEXER_HEAD_DIM, N_LAYER, N_SWA, N_VOCAB,
};
use crate::pow2::{is_next_pow2, next_pow2};
use crate::session::compressor::{
    attn_compressor, attn_steps, emit_steps, index_compressor, index_steps, next_row, project_steps,
    rows_after, shift_steps, Compressor,
};
use crate::session::decode::{decode_steps, embed_steps, layer_steps, layers_steps, output_steps};
use crate::session::layer::{
    attention_steps, attn_in, attn_out_steps, batch_in, expert_steps, ffn_in, hc_in_steps,
    index_query_steps, merge_steps, mixed_step, moe_steps, out_and_ffn_steps, qkv_steps,
    rope_steps_of, router_steps, seen_rows, shared_steps, HcIn,
};
use crate::session::prefill::{
    all_rows_after, batch_attention_steps, batch_qkv_steps, chunk_layer_steps, chunk_layers_steps,
    chunk_size, chunk_steps, chunk_token_steps, chunk_tokens_steps, chunks_steps, prefill_steps,
    project_batch, quantize_batch, take_row, token_attention_steps,
};
use crate::session::state::in_table;
use crate::session::step::{
    buf_elems, comp_width, ratio_of, state_len, Buf, Step, HC_DIM, INDEXER_Q_DIM, MIX_HC,
    MOE_MID_BLOCKS, MOE_XQ_BLOCKS, Q8K_BLOCK_BYTES, Q_DIM, Q_RANK,
};

verus! {

/// All that a step reads and writes lies within its buffers, for caches of `cap` compressed rows
/// and chunks of `chunk` tokens.
pub open spec fn fits(s: Step, cap: int, chunk: int) -> bool {
    match s {
        Step::EmbedToken { out, .. } => buf_elems(out, cap, chunk) >= HC_DIM,
        Step::EmbedTokens { tokens, out, n_tok, .. } => {
            buf_elems(tokens, cap, chunk) >= n_tok && buf_elems(out, cap, chunk) >= n_tok * HC_DIM
        },
        Step::RmsNormPlain { x, out, n, rows } => {
            buf_elems(x, cap, chunk) >= rows * n && buf_elems(out, cap, chunk) >= rows * n
        },
        Step::RmsNormWeight { x, out, n, rows, .. } => {
            buf_elems(x, cap, chunk) >= rows * n && buf_elems(out, cap, chunk) >= rows * n
        },
        Step::MatmulF16 { x, out, in_dim, out_dim, n_tok, .. } => {
            &&& buf_elems(x, cap, chunk) >= n_tok * in_dim
            &&& buf_elems(out, cap, chunk) >= n_tok * out_dim
        },
        Step::HcSplitNorm { mix, residual, split, cur, normed, rows, .. } => {
            &&& buf_elems(mix, cap, chunk) >= rows * MIX_HC
            &&& buf_elems(residual, cap, chunk) >= rows * HC_DIM
            &&& buf_elems(split, cap, chunk) >= rows * MIX_HC
            &&& buf_elems(cur, cap, chunk) >= rows * N_EMBD
            &&& buf_elems(normed, cap, chunk) >= rows * N_EMBD
        },
        Step::QuantizeQ8 { x, xq, xscale, in_dim, blocks, rows } => {
            &&& blocks * 32 == in_dim
            &&& buf_elems(x, cap, chunk) >= rows * in_dim
            &&& buf_elems(xq, cap, chunk) >= rows * in_dim
            &&& buf_elems(xscale, cap, chunk) >= rows * blocks
        },
        Step::MatmulQ8 { xq, xscale, out, in_dim, out_dim, blocks, .. } => {
            &&& blocks * 32 == in_dim
            &&& buf_elems(xq, cap, chunk) >= in_dim
            &&& buf_elems(xscale, cap, chunk) >= blocks
            &&& buf_elems(out, cap, chunk) >= out_dim
        },
        Step::MatmulQ8Batch { xq, xscale, out, in_dim, out_dim, n_tok, blocks, .. } => {
            &&& blocks * 32 == in_dim
            &&& buf_elems(xq, cap, chunk) >= n_tok * in_dim
            &&& buf_elems(xscale, cap, chunk) >= n_tok * blocks
            &&& buf_elems(out, cap, chunk) >= n_tok * out_dim
        },
        Step::MatmulQ8Grouped { xq, xscale, out, group_dim, rank, n_groups, blocks, .. } => {
            &&& blocks * 32 == group_dim
            &&& buf_elems(xq, cap, chunk) >= n_groups * group_dim
            &&& buf_elems(xscale, cap, chunk) >= n_groups * blocks
            &&& buf_elems(out, cap, chunk) >= n_groups * rank
        },
        Step::MatmulQ8HcExpand {
            xq,
            xscale,
            residual,
            split,
            out,
            out_hc,
            in_dim,
            out_dim,
            blocks,
            ..
        } => {
            &&& blocks * 32 == in_dim
            &&& buf_elems(xq, cap, chunk) >= in_dim
            &&& buf_elems(xscale, cap, chunk) >= blocks
            &&& buf_elems(residual, cap, chunk) >= N_HC * out_dim
            &&& buf_elems(split, cap, chunk) >= MIX_HC
            &&& buf_elems(out, cap, chunk) >= out_dim
            &&& buf_elems(out_hc, cap, chunk) >= N_HC * out_dim
        },
        Step::QkvNorm { qr, qr_out, kv, kv_out, rows, .. } => {
            &&& buf_elems(qr, cap, chunk) >= rows * Q_RANK
            &&& buf_elems(qr_out, cap, chunk) >= rows * Q_RANK
            &&& buf_elems(kv, cap, chunk) >= rows * N_HEAD_DIM
            &&& buf_elems(kv_out, cap, chunk) >= rows * N_HEAD_DIM
        },
        Step::HeadNorm { x, n_tok, n_head, head_dim } => {
            buf_elems(x, cap, chunk) >= n_tok * (n_head * head_dim)
        },
        Step::Rope { x, n_tok, n_head, head_dim, .. } => {
            buf_elems(x, cap, chunk) >= n_tok * (n_head * head_dim)
        },
        Step::StoreRaw { kv, cache, raw_cap, n_tok, .. } => {
            &&& buf_elems(kv, cap, chunk) >= n_tok * N_HEAD_DIM
            &&& buf_elems(cache, cap, chunk) >= raw_cap * N_HEAD_DIM
            &&& n_tok <= raw_cap
        },
        Step::PrefillRaw { q, raw, heads, n_tok, window, .. } => {
            &&& buf_elems(q, cap, chunk) >= n_tok * Q_DIM
            &&& buf_elems(raw, cap, chunk) >= n_tok * N_HEAD_DIM
            &&& buf_elems(heads, cap, chunk) >= n_tok * Q_DIM
            &&& n_tok <= window
        },
        Step::DecodeMixed { q, raw, comp, heads, n_raw, raw_cap, raw_start, n_comp, .. } => {
            &&& buf_elems(q, cap, chunk) >= Q_DIM
            &&& buf_elems(heads, cap, chunk) >= Q_DIM
            &&& buf_elems(raw, cap, chunk) >= raw_cap * N_HEAD_DIM
            &&& n_raw <= raw_cap
            &&& raw_start < raw_cap
            &&& buf_elems(comp, cap, chunk) >= n_comp * N_HEAD_DIM
        },
        Step::IndexScore { q, weights, comp, scores, n_comp, .. } => {
            &&& buf_elems(q, cap, chunk) >= INDEXER_Q_DIM
            &&& buf_elems(weights, cap, chunk) >= N_INDEXER_HEAD
            &&& buf_elems(comp, cap, chunk) >= n_comp * N_INDEXER_HEAD_DIM
            &&& buf_elems(scores, cap, chunk) >= n_comp
        },
        Step::IndexTopk { scores, topk, n_comp, top_k, n_sort } => {
            &&& buf_elems(scores, cap, chunk) >= n_comp
            &&& buf_elems(topk, cap, chunk) >= top_k
            &&& top_k <= n_comp <= n_sort
        },
        Step::IndexedMixed {
            q,
            raw,
            comp,
            topk,
            heads,
            n_raw,
            raw_cap,
            raw_start,
            n_comp,
            top_k,
            ..
        } => {
            &&& buf_elems(q, cap, chunk) >= Q_DIM
            &&& buf_elems(heads, cap, chunk) >= Q_DIM
            &&& buf_elems(raw, cap, chunk) >= raw_cap * N_HEAD_DIM
            &&& n_raw <= raw_cap
            &&& raw_start < raw_cap
            &&& buf_elems(comp, cap, chunk) >= n_comp * N_HEAD_DIM
            &&& buf_elems(topk, cap, chunk) >= top_k
        },
        Step::CompressorStore { kv, sc, state_kv, state_score, head_dim, ratio, .. } => {
            &&& ratio > 0
            &&& buf_elems(kv, cap, chunk) >= comp_width(ratio, head_dim as int)
            &&& buf_elems(sc, cap, chunk) >= comp_width(ratio, head_dim as int)
            &&& buf_elems(state_kv, cap, chunk) >= state_len(ratio, head_dim as int)
            &&& buf_elems(state_score, cap, chunk) >= state_len(ratio, head_dim as int)
        },
        Step::CompressorPool { state_kv, state_score, out, head_dim, ratio } => {
            &&& ratio > 0
            &&& buf_elems(state_kv, cap, chunk) >= state_len(ratio, head_dim as int)
            &&& buf_elems(state_score, cap, chunk) >= state_len(ratio, head_dim as int)
            &&& buf_elems(out, cap, chunk) >= head_dim
        },
        Step::CompressorShift4 { state_kv, state_score, width } => {
            &&& buf_elems(state_kv, cap, chunk) >= 8 * width
            &&& buf_elems(state_score, cap, chunk) >= 8 * width
        },
        Step::Fp8Quantize { x, head_dim } => buf_elems(x, cap, chunk) >= head_dim,
        Step::CopyAt { src, dst, n, offset } => {
            buf_elems(src, cap, chunk) == n && buf_elems(dst, cap, chunk) >= offset + n
        },
        Step::Swiglu { gate, up, out, n } => {
            &&& buf_elems(gate, cap, chunk) >= n
            &&& buf_elems(up, cap, chunk) >= n
            &&& buf_elems(out, cap, chunk) >= n
        },
        Step::RouterSelect { logits, probs, selected, weights, .. } => {
            &&& buf_elems(logits, cap, chunk) >= N_EXPERT
            &&& buf_elems(probs, cap, chunk) >= N_EXPERT
            &&& buf_elems(selected, cap, chunk) >= N_EXPERT_USED
            &&& buf_elems(weights, cap, chunk) >= N_EXPERT_USED
        },
        Step::Q8kQuantize { x, out, in_dim, blocks, rows } => {
            &&& blocks * 256 == in_dim
            &&& buf_elems(x, cap, chunk) >= rows * in_dim
            &&& buf_elems(out, cap, chunk) >= rows * (blocks * Q8K_BLOCK_BYTES)
        },
        Step::MoeGateUpMid { xq, selected, weights, gate, up, mid, .. } => {
            &&& buf_elems(xq, cap, chunk) >= MOE_XQ_BLOCKS * Q8K_BLOCK_BYTES
            &&& buf_elems(selected, cap, chunk) >= N_EXPERT_USED
            &&& buf_elems(weights, cap, chunk) >= N_EXPERT_USED
            &&& buf_elems(gate, cap, chunk) >= N_EXPERT_USED * N_FF_EXP
            &&& buf_elems(up, cap, chunk) >= N_EXPERT_USED * N_FF_EXP
            &&& buf_elems(mid, cap, chunk) >= N_EXPERT_USED * N_FF_EXP
        },
        Step::MoeDownSum { midq, selected, out, .. } => {
            &&& buf_elems(midq, cap, chunk) >= N_EXPERT_USED * MOE_MID_BLOCKS * Q8K_BLOCK_BYTES
            &&& buf_elems(selected, cap, chunk) >= N_EXPERT_USED
            &&& buf_elems(out, cap, chunk) >= N_EMBD
        },
        Step::HcExpand { block, add, residual, split, out, .. } => {
            &&& buf_elems(block, cap, chunk) >= N_EMBD
            &&& buf_elems(add, cap, chunk) >= N_EMBD
            &&& buf_elems(residual, cap, chunk) >= HC_DIM
            &&& buf_elems(split, cap, chunk) >= MIX_HC
            &&& buf_elems(out, cap, chunk) >= HC_DIM
        },
        Step::OutputHcWeights { pre, out, .. } => {
            buf_elems(pre, cap, chunk) >= N_HC && buf_elems(out, cap, chunk) >= N_HC
        },
        Step::HcWeightedSum { x, weights, out } => {
            &&& buf_elems(x, cap, chunk) >= HC_DIM
            &&& buf_elems(weights, cap, chunk) >= N_HC
            &&& buf_elems(out, cap, chunk) >= N_EMBD
        },
        Step::CopyRow { src, src_at, dst, dst_at, n } => {
            buf_elems(src, cap, chunk) >= src_at + n && buf_elems(dst, cap, chunk) >= dst_at + n
        },
        Step::Swap { a, b } => buf_elems(a, cap, chunk) == buf_elems(b, cap, chunk),
        Step::EmitRow { layer } => layer < N_LAYER,
        Step::Need(t) => in_table(t),
        _ => true,
    }
}

/// The step can be performed: it stays within its buffers, and its launch can be computed.
#[verifier::opaque]
pub open spec fn sound(s: Step, cap: int, chunk: int) -> bool {
    fits(s, cap, chunk) && s.launchable()
}

/// All steps can be performed.
pub open spec fn all_sound(steps: Seq<Step>, cap: int, chunk: int) -> bool {
    forall|i: int| 0 <= i < steps.len() ==> sound(#[trigger] steps[i], cap, chunk)
}

proof fn sound_concat(a: Seq<Step>, b: Seq<Step>, cap: int, chunk: int)
    requires
        all_sound(a, cap, chunk),
        all_sound(b, cap, chunk),
    ensures
        all_sound(a + b, cap, chunk),
{
    assert forall|i: int| 0 <= i < (a + b).len() implies sound(
        #[trigger] (a + b)[i],
        cap,
        chunk,
    ) by {
        if i < a.len() {
            assert((a + b)[i] == a[i]);
        } else {
            assert((a + b)[i] == b[i - a.len()]);
        }
    }
}

/// The caches can be addressed by 32-bit element numbers.
pub open spec fn addressable(cap: int) -> bool {
    0 <= cap && cap * N_HEAD_DIM <= u32::MAX
}

#[verifier::nonlinear]
proof fn compressor_sound(c: Compressor, pos: u32, row: u32, cap: int, chunk: int)
    requires
        c == attn_compressor(c.layer) && ratio_of(c.layer as int) != 0 || c == index_compressor(
            c.layer,
        ) && ratio_of(c.layer as int) == 4,
        c.layer < N_LAYER,
        row < cap,
        addressable(cap),
    ensures
        all_sound(project_steps(c, pos), cap, chunk),
        all_sound(emit_steps(c, pos, row), cap, chunk),
        all_sound(shift_steps(c), cap, chunk),
{
    reveal(sound);
    let p = project_steps(c, pos);
    assert(sound(p[0], cap, chunk));
    assert(sound(p[2], cap, chunk));
    assert(sound(p[3], cap, chunk));
    assert(sound(p[5], cap, chunk));
    let e = emit_steps(c, pos, row);
    assert(sound(e[0], cap, chunk));
    assert(sound(e[2], cap, chunk));
    assert(sound(e[3], cap, chunk));
    assert(sound(e[4], cap, chunk));
    assert(sound(e[5], cap, chunk));
}

proof fn hc_in_sound(il: usize, nc: u32, cap: int, chunk: int)
    requires
        il < N_LAYER,
        nc <= chunk <= N_SWA,
    ensures
        all_sound(hc_in_steps(attn_in(il)), cap, chunk),
        all_sound(hc_in_steps(ffn_in(il)), cap, chunk),
        all_sound(hc_in_steps(batch_in(il, nc)), cap, chunk),
{
    hc_in_general(attn_in(il), cap, chunk);
    hc_in_general(ffn_in(il), cap, chunk);
    hc_in_general(batch_in(il, nc), cap, chunk);
}

proof fn hc_in_general(h: HcIn, cap: int, chunk: int)
    requires
        h.layer < N_LAYER,
        h.rows <= N_SWA,
        buf_elems(h.x, cap, chunk) >= h.rows * 16384,
        buf_elems(h.flat, cap, chunk) >= h.rows * 16384,
        buf_elems(h.mix, cap, chunk) >= h.rows * 24,
        buf_elems(h.split, cap, chunk) >= h.rows * 24,
        buf_elems(h.cur, cap, chunk) >= h.rows * 4096,
        buf_elems(h.normed, cap, chunk) >= h.rows * 4096,
    ensures
        all_sound(hc_in_steps(h), cap, chunk),
{
    reveal(sound);
    let s = hc_in_steps(h);
    let w = Weight::Layer(h.layer, h.mix_w);
    assert(sound(
        Step::RmsNormPlain { x: h.x, out: h.flat, n: 16384, rows: h.rows },
        cap,
        chunk,
    ));
    assert(sound(
        Step::MatmulF16 {
            w,
            x: h.flat,
            out: h.mix,
            in_dim: 16384,
            out_dim: 24,
            n_tok: h.rows as u64,
        },
        cap,
        chunk,
    ));
    assert(sound(s[6], cap, chunk));
}

#[verifier::nonlinear]
proof fn qkv_sound(il: usize, pos: u32, cap: int, chunk: int)
    requires
        il < N_LAYER,
    ensures
        all_sound(qkv_steps(il, pos), cap, chunk),
{
    reveal(sound);
}

#[verifier::nonlinear]
proof fn index_query_sound(w: ModelWeights, il: usize, pos: u32, cap: int, chunk: int)
    requires
        il < N_LAYER,
    ensures
        all_sound(index_query_steps(w, il, pos), cap, chunk),
{
    reveal(sound);
}

proof fn compressors_sound(
    w: ModelWeights,
    il: usize,
    pos: u32,
    row: u32,
    cap: int,
    chunk: int,
)
    requires
        il < N_LAYER,
        row <= cap,
        addressable(cap),
        cap > 0,
    ensures
        all_sound(index_steps(w, il, pos, row, cap), cap, chunk),
        all_sound(attn_steps(w, il, pos, row, cap), cap, chunk),
        next_row(w, il as int, pos as int, row, cap) <= cap,
{
    let r = if row < cap {
        row
    } else {
        0
    };
    assert(sound(Step::EmitRow { layer: il }, cap, chunk)) by {
        reveal(sound);
    }
    if ratio_of(il as int) == 4 {
        let c = index_compressor(il);
        compressor_sound(c, pos, r, cap, chunk);
        sound_concat(project_steps(c, pos), emit_steps(c, pos, r), cap, chunk);
        sound_concat(
            project_steps(c, pos) + emit_steps(c, pos, r),
            shift_steps(c),
            cap,
            chunk,
        );
    }
    if ratio_of(il as int) != 0 {
        let c = attn_compressor(il);
        compressor_sound(c, pos, r, cap, chunk);
        sound_concat(project_steps(c, pos), emit_steps(c, pos, r), cap, chunk);
        sound_concat(
            project_steps(c, pos) + emit_steps(c, pos, r),
            shift_steps(c),
            cap,
            chunk,
        );
        sound_concat(
            project_steps(c, pos) + emit_steps(c, pos, r) + shift_steps(c),
            seq![Step::EmitRow { layer: il }],
            cap,
            chunk,
        );
    }
}

#[verifier::nonlinear]
proof fn attention_sound(
    w: ModelWeights,
    il: usize,
    pos: u32,
    row: u32,
    n_sort: int,
    cap: int,
    chunk: int,
)
    requires
        il < N_LAYER,
        row <= cap,
        addressable(cap),
        n_sort == next_pow2(row as int),
        row <= n_sort <= 0x1000_0000,
    ensures
        all_sound(attention_steps(w, il, pos, row), cap, chunk),
{
    reveal(sound);
}

proof fn mixed_sound(il: usize, pos: u32, row: u32, cap: int, chunk: int)
    requires
        il < N_LAYER,
        row <= cap,
        addressable(cap),
    ensures
        sound(mixed_step(il, pos, seen_rows(il as int, row)), cap, chunk),
{
    reveal(sound);
}

/// A power of two at least `n`, and less than twice that.
proof fn sort_size(n: u32)
    requires
        n <= 0x100_0000,
    ensures
        n <= next_pow2(n as int) <= 0x200_0000,
{
    power_above(n as int, 1);
    let p = next_pow2(n as int);
    assert(is_next_pow2(p, n as int));
}

proof fn power_above(n: int, p: int)
    requires
        crate::pow2::is_pow2(p),
        p == 1 || p / 2 < n,
    ensures
        exists|q: int| is_next_pow2(q, n),
    decreases 2 * n - p,
{
    if p >= n {
        assert(is_next_pow2(p, n));
    } else {
        crate::pow2::pow2_doubles(p);
        power_above(n, 2 * p);
    }
}

#[verifier::nonlinear]
proof fn attn_out_sound(il: usize, pos: u32, cap: int, chunk: int)
    requires
        il < N_LAYER,
    ensures
        all_sound(attn_out_steps(il, pos), cap, chunk),
{
    reveal(sound);
}

#[verifier::nonlinear]
proof fn shared_sound(w: ModelWeights, il: usize, cap: int, chunk: int)
    requires
        il < N_LAYER,
    ensures
        all_sound(shared_steps(w, il), cap, chunk),
        all_sound(merge_steps(w, il), cap, chunk),
{
    reveal(sound);
}

proof fn router_sound(w: ModelWeights, il: usize, token: i32, cap: int, chunk: int)
    requires
        il < N_LAYER,
    ensures
        all_sound(router_steps(w, il, token), cap, chunk),
{
    reveal(sound);
    assert(sound(
        Step::MatmulF16 {
            w: Weight::Layer(il, LayerSlot::FfnGateInp),
            x: Buf::FfnNorm,
            out: Buf::RouterLogits,
            in_dim: 4096,
            out_dim: 256,
            n_tok: 1,
        },
        cap,
        chunk,
    ));
}

#[verifier::nonlinear]
proof fn experts_sound(il: usize, cap: int, chunk: int)
    requires
        il < N_LAYER,
    ensures
        all_sound(expert_steps(il), cap, chunk),
{
    reveal(sound);
}

proof fn out_and_ffn_sound(
    w: ModelWeights,
    il: usize,
    pos: u32,
    token: i32,
    cap: int,
    chunk: int,
)
    requires
        il < N_LAYER,
        0 <= chunk <= N_SWA,
    ensures
        all_sound(out_and_ffn_steps(w, il, pos, token), cap, chunk),
{
    attn_out_sound(il, pos, cap, chunk);
    hc_in_sound(il, 0, cap, chunk);
    shared_sound(w, il, cap, chunk);
    router_sound(w, il, token, cap, chunk);
    experts_sound(il, cap, chunk);
    sound_concat(router_steps(w, il, token), expert_steps(il), cap, chunk);
    assert(all_sound(moe_steps(w, il, token), cap, chunk));
    let a = attn_out_steps(il, pos);
    let b = a + hc_in_steps(ffn_in(il));
    let c = b + shared_steps(w, il);
    let d = c + moe_steps(w, il, token);
    sound_concat(a, hc_in_steps(ffn_in(il)), cap, chunk);
    sound_concat(b, shared_steps(w, il), cap, chunk);
    sound_concat(c, moe_steps(w, il, token), cap, chunk);
    sound_concat(d, merge_steps(w, il), cap, chunk);
}

proof fn layer_sound(
    w: ModelWeights,
    il: usize,
    pos: u32,
    token: i32,
    row: u32,
    cap: int,
    chunk: int,
)
    requires
        il < N_LAYER,
        row <= cap,
        addressable(cap),
        cap > 0,
        0 <= chunk <= N_SWA,
    ensures
        all_sound(layer_steps(w, il, pos, token, row, cap), cap, chunk),
{
    let after = next_row(w, il as int, pos as int, row, cap);
    hc_in_sound(il, 0, cap, chunk);
    qkv_sound(il, pos, cap, chunk);
    index_query_sound(w, il, pos, cap, chunk);
    compressors_sound(w, il, pos, row, cap, chunk);
    sort_size(after);
    attention_sound(w, il, pos, after, next_pow2(after as int), cap, chunk);
    out_and_ffn_sound(w, il, pos, token, cap, chunk);
    let a = hc_in_steps(attn_in(il));
    let b = a + qkv_steps(il, pos);
    let c = b + index_query_steps(w, il, pos);
    let d = c + index_steps(w, il, pos, row, cap);
    let e = d + attn_steps(w, il, pos, row, cap);
    let f = e + attention_steps(w, il, pos, after);
    sound_concat(a, qkv_steps(il, pos), cap, chunk);
    sound_concat(b, index_query_steps(w, il, pos), cap, chunk);
    sound_concat(c, index_steps(w, il, pos, row, cap), cap, chunk);
    sound_concat(d, attn_steps(w, il, pos, row, cap), cap, chunk);
    sound_concat(e, attention_steps(w, il, pos, after), cap, chunk);
    sound_concat(f, out_and_ffn_steps(w, il, pos, token), cap, chunk);
}

proof fn layers_sound(
    w: ModelWeights,
    n: nat,
    pos: u32,
    token: i32,
    rows: Seq<u32>,
    cap: int,
    chunk: int,
)
    requires
        n <= N_LAYER,
        rows.len() == N_LAYER,
        forall|il: int| 0 <= il < N_LAYER ==> #[trigger] rows[il] <= cap,
        addressable(cap),
        cap > 0,
        0 <= chunk <= N_SWA,
    ensures
        all_sound(layers_steps(w, n, pos, token, rows, cap), cap, chunk),
    decreases n,
{
    if n > 0 {
        let m = (n - 1) as nat;
        layers_sound(w, m, pos, token, rows, cap, chunk);
        layer_sound(w, m as usize, pos, token, rows[m as int], cap, chunk);
        sound_concat(
            layers_steps(w, m, pos, token, rows, cap),
            layer_steps(w, m as usize, pos, token, rows[m as int], cap),
            cap,
            chunk,
        );
    }
}

#[verifier::nonlinear]
#[verifier::rlimit(60)]
proof fn output_sound(cap: int, chunk: int)
    ensures
        all_sound(output_steps(), cap, chunk),
{
    reveal(sound);
}

#[verifier::nonlinear]
proof fn ends_sound(token: i32, cap: int, chunk: int)
    ensures
        all_sound(embed_steps(token), cap, chunk),
        all_sound(output_steps(), cap, chunk),
{
    assert(all_sound(embed_steps(token), cap, chunk)) by {
        reveal(sound);
    }
    output_sound(cap, chunk);
}

/// Decoding a token touches no element outside its buffers, whatever the position, the token
/// and the tensors of the file, as long as no cache holds more rows than it has room for.
pub proof fn decoding_stays_in_bounds(
    w: ModelWeights,
    pos: u32,
    token: i32,
    rows: Seq<u32>,
    cap: int,
)
    requires
        rows.len() == N_LAYER,
        forall|il: int| 0 <= il < N_LAYER ==> #[trigger] rows[il] <= cap,
        addressable(cap),
        cap > 0,
    ensures
        all_sound(decode_steps(w, pos, token, rows, cap), cap, 0),
{
    ends_sound(token, cap, 0);
    layers_sound(w, N_LAYER as nat, pos, token, rows, cap, 0);
    let a = embed_steps(token);
    let b = a + layers_steps(w, N_LAYER as nat, pos, token, rows, cap);
    let c = b + output_steps();
    assert(sound(Step::ReadLogits, cap, 0)) by {
        reveal(sound);
    }
    sound_concat(a, layers_steps(w, N_LAYER as nat, pos, token, rows, cap), cap, 0);
    sound_concat(b, output_steps(), cap, 0);
    sound_concat(c, seq![Step::ReadLogits], cap, 0);
}

/// A projection of the rows of a chunk, by its dimensions.
proof fn batch_projection_sound(
    w: Weight,
    out: Buf,
    in_dim: u64,
    out_dim: u64,
    nc: u32,
    blocks: u64,
    cap: int,
    chunk: int,
)
    requires
        nc <= chunk <= N_SWA,
        in_dim <= 32768,
        out_dim <= N_VOCAB,
        blocks * 32 == in_dim,
        buf_elems(out, cap, chunk) == chunk * out_dim,
    ensures
        sound(project_batch(w, out, in_dim, out_dim, nc, blocks), cap, chunk),
{
    reveal(sound);
    assert(nc * in_dim <= chunk * 32768) by (nonlinear_arith)
        requires
            nc <= chunk,
            in_dim <= 32768,
    ;
    assert(nc * blocks <= chunk * 1024) by (nonlinear_arith)
        requires
            nc <= chunk,
            blocks <= 1024,
    ;
    assert(nc * out_dim <= chunk * out_dim) by (nonlinear_arith)
        requires
            nc <= chunk,
    ;
}

proof fn batch_rows_sound(il: usize, pos: u32, nc: u32, cap: int, chunk: int)
    requires
        il < N_LAYER,
        nc <= chunk <= N_SWA,
    ensures
        sound(quantize_batch(Buf::BAttnNorm, 4096, 128, nc), cap, chunk),
        sound(quantize_batch(Buf::BQrNorm, 1024, 32, nc), cap, chunk),
        sound(
            Step::HeadNorm { x: Buf::BQ, n_tok: nc, n_head: 64, head_dim: 512 },
            cap,
            chunk,
        ),
        sound(rope_steps_of(Buf::BQ, nc, 64, 512, pos, il), cap, chunk),
        sound(rope_steps_of(Buf::BKv, nc, 1, 512, pos, il), cap, chunk),
{
    reveal(sound);
    assert(nc * (64u32 * 512u32) <= chunk * 32768) by (nonlinear_arith)
        requires
            nc <= chunk,
    ;
    assert(nc * (1u32 * 512u32) <= chunk * 512) by (nonlinear_arith)
        requires
            nc <= chunk,
    ;
}

proof fn need_sound(il: usize, cap: int, chunk: int)
    requires
        il < N_LAYER,
    ensures
        forall|s: LayerSlot| #[trigger]
            sound(Step::Need(Weight::Layer(il, s)), cap, chunk),
{
    reveal(sound);
}

proof fn batch_caches_sound(
    il: usize,
    pos: u32,
    nc: u32,
    qw: Weight,
    kw: Weight,
    cap: int,
    chunk: int,
)
    requires
        il < N_LAYER,
        nc <= chunk <= N_SWA,
    ensures
        sound(
            Step::QkvNorm {
                qr: Buf::BQr,
                qr_w: qw,
                qr_out: Buf::BQrNorm,
                kv: Buf::BKvRaw,
                kv_w: kw,
                kv_out: Buf::BKv,
                rows: nc,
            },
            cap,
            chunk,
        ),
        sound(
            Step::StoreRaw {
                kv: Buf::BKv,
                cache: Buf::RawCache(il),
                raw_cap: 128,
                pos,
                n_tok: nc,
            },
            cap,
            chunk,
        ),
        sound(
            Step::PrefillRaw {
                q: Buf::BQ,
                raw: Buf::RawCache(il),
                sinks: qw,
                heads: Buf::BHeads,
                n_tok: nc,
                window: 128,
            },
            cap,
            chunk,
        ),
{
    reveal(sound);
}

proof fn batch_qkv_sound(il: usize, pos: u32, nc: u32, cap: int, chunk: int)
    requires
        il < N_LAYER,
        nc <= chunk <= N_SWA,
    ensures
        all_sound(batch_qkv_steps(il, pos, nc), cap, chunk),
        all_sound(batch_attention_steps(il, pos, nc), cap, chunk),
{
    let w = |s: LayerSlot| Weight::Layer(il, s);
    need_sound(il, cap, chunk);
    batch_caches_sound(
        il,
        pos,
        nc,
        w(LayerSlot::AttnQANorm),
        w(LayerSlot::AttnKvANorm),
        cap,
        chunk,
    );
    batch_caches_sound(
        il,
        pos,
        nc,
        w(LayerSlot::AttnSinks),
        w(LayerSlot::AttnKvANorm),
        cap,
        chunk,
    );
    batch_rows_sound(il, pos, nc, cap, chunk);
    batch_projection_sound(
        w(LayerSlot::AttnQA),
        Buf::BQr,
        4096,
        1024,
        nc,
        128,
        cap,
        chunk,
    );
    batch_projection_sound(
        w(LayerSlot::AttnKv),
        Buf::BKvRaw,
        4096,
        512,
        nc,
        128,
        cap,
        chunk,
    );
    batch_projection_sound(w(LayerSlot::AttnQB), Buf::BQ, 1024, 32768, nc, 32, cap, chunk);
}

proof fn token_attention_sound(
    il: usize,
    first: int,
    t: int,
    row: u32,
    cap: int,
    chunk: int,
)
    requires
        il < N_LAYER,
        0 <= t < chunk <= N_SWA,
        row <= cap,
        addressable(cap),
        cap > 0,
    ensures
        all_sound(token_attention_steps(il, first, t, seen_rows(il as int, row)), cap, chunk),
{
    mixed_sound(il, (first + t) as u32, row, cap, chunk);
    need_sound(il, cap, chunk);
    let pos = (first + t) as u32;
    assert(sound(take_row(Buf::BHeads, t, Q_DIM, Buf::Heads), cap, chunk)) by {
        reveal(sound);
    }
    assert(sound(take_row(Buf::BQ, t, Q_DIM, Buf::Q), cap, chunk)) by {
        reveal(sound);
    }
    assert(sound(take_row(Buf::BKv, t, N_HEAD_DIM, Buf::Kv), cap, chunk)) by {
        reveal(sound);
    }
    assert(sound(
        Step::StoreRaw {
            kv: Buf::Kv,
            cache: Buf::RawCache(il),
            raw_cap: N_SWA as u32,
            pos,
            n_tok: 1,
        },
        cap,
        chunk,
    )) by {
        reveal(sound);
    }
}

proof fn chunk_token_sound(
    w: ModelWeights,
    il: usize,
    first: int,
    t: int,
    token: i32,
    row: u32,
    cap: int,
    chunk: int,
)
    requires
        il < N_LAYER,
        0 <= t < chunk <= N_SWA,
        row <= cap,
        addressable(cap),
        cap > 0,
    ensures
        all_sound(chunk_token_steps(w, il, first, t, token, row, cap), cap, chunk),
{
    let pos = (first + t) as u32;
    let after = next_row(w, il as int, pos as int, row, cap);
    compressors_sound(w, il, pos, row, cap, chunk);
    mixed_sound(il, pos, after, cap, chunk);
    out_and_ffn_sound(w, il, pos, token, cap, chunk);
    let a = seq![
        take_row(Buf::BHc, t, HC_DIM, Buf::CurHc),
        take_row(Buf::BHcSplit, t, MIX_HC, Buf::HcSplit),
        take_row(Buf::BAttnNorm, t, N_EMBD, Buf::AttnNorm),
    ];
    assert(all_sound(a, cap, chunk)) by {
        reveal(sound);
    }
    let b = a + index_steps(w, il, pos, row, cap);
    let c = b + attn_steps(w, il, pos, row, cap);
    let m = token_attention_steps(il, first, t, seen_rows(il as int, after));
    token_attention_sound(il, first, t, after, cap, chunk);
    let d = c + m;
    let e = d + out_and_ffn_steps(w, il, pos, token);
    let last = seq![
        Step::CopyRow {
            src: Buf::CurHc,
            src_at: 0,
            dst: Buf::BHcNext,
            dst_at: (t * HC_DIM) as usize,
            n: HC_DIM,
        },
    ];
    assert(all_sound(last, cap, chunk)) by {
        reveal(sound);
    }
    sound_concat(a, index_steps(w, il, pos, row, cap), cap, chunk);
    sound_concat(b, attn_steps(w, il, pos, row, cap), cap, chunk);
    sound_concat(c, m, cap, chunk);
    sound_concat(d, out_and_ffn_steps(w, il, pos, token), cap, chunk);
    sound_concat(e, last, cap, chunk);
}

/// No cache ever holds more rows than it has room for.
pub proof fn rows_never_exceed_capacity(
    w: ModelWeights,
    il: int,
    pos: int,
    n: nat,
    row: u32,
    cap: int,
)
    requires
        row <= cap,
    ensures
        row <= rows_after(w, il, pos, n, row, cap) <= cap || cap > u32::MAX,
    decreases n,
{
    if n > 0 {
        rows_never_exceed_capacity(w, il, pos, (n - 1) as nat, row, cap);
    }
}

proof fn chunk_tokens_sound(
    w: ModelWeights,
    il: usize,
    first: int,
    n: nat,
    tokens: Seq<i32>,
    row: u32,
    cap: int,
    chunk: int,
)
    requires
        il < N_LAYER,
        n <= chunk <= N_SWA,
        row <= cap,
        addressable(cap),
        cap > 0,
    ensures
        all_sound(chunk_tokens_steps(w, il, first, n, tokens, row, cap), cap, chunk),
    decreases n,
{
    if n > 0 {
        let m = (n - 1) as nat;
        chunk_tokens_sound(w, il, first, m, tokens, row, cap, chunk);
        rows_never_exceed_capacity(w, il as int, first, m, row, cap);
        let r = rows_after(w, il as int, first, m, row, cap);
        chunk_token_sound(w, il, first, m as int, tokens[m as int], r, cap, chunk);
        sound_concat(
            chunk_tokens_steps(w, il, first, m, tokens, row, cap),
            chunk_token_steps(w, il, first, m as int, tokens[m as int], r, cap),
            cap,
            chunk,
        );
    }
}

proof fn chunk_layer_sound(
    w: ModelWeights,
    il: usize,
    first: int,
    tokens: Seq<i32>,
    row: u32,
    cap: int,
    chunk: int,
)
    requires
        il < N_LAYER,
        tokens.len() <= chunk <= N_SWA,
        row <= cap,
        addressable(cap),
        cap > 0,
    ensures
        all_sound(chunk_layer_steps(w, il, first, tokens, row, cap), cap, chunk),
{
    let nc = tokens.len() as u32;
    hc_in_sound(il, nc, cap, chunk);
    batch_qkv_sound(il, first as u32, nc, cap, chunk);
    chunk_tokens_sound(w, il, first, tokens.len(), tokens, row, cap, chunk);
    let a = hc_in_steps(batch_in(il, nc));
    let b = a + batch_qkv_steps(il, first as u32, nc);
    let c = b + batch_attention_steps(il, first as u32, nc);
    let d = c + chunk_tokens_steps(w, il, first, tokens.len(), tokens, row, cap);
    let last = seq![Step::Swap { a: Buf::BHc, b: Buf::BHcNext }];
    assert(all_sound(last, cap, chunk)) by {
        reveal(sound);
    }
    sound_concat(a, batch_qkv_steps(il, first as u32, nc), cap, chunk);
    sound_concat(b, batch_attention_steps(il, first as u32, nc), cap, chunk);
    sound_concat(
        c,
        chunk_tokens_steps(w, il, first, tokens.len(), tokens, row, cap),
        cap,
        chunk,
    );
    sound_concat(d, last, cap, chunk);
}

proof fn chunk_layers_sound(
    w: ModelWeights,
    n: nat,
    first: int,
    tokens: Seq<i32>,
    rows: Seq<u32>,
    cap: int,
    chunk: int,
)
    requires
        n <= N_LAYER,
        tokens.len() <= chunk <= N_SWA,
        rows.len() == N_LAYER,
        forall|il: int| 0 <= il < N_LAYER ==> #[trigger] rows[il] <= cap,
        addressable(cap),
        cap > 0,
    ensures
        all_sound(chunk_layers_steps(w, n, first, tokens, rows, cap), cap, chunk),
    decreases n,
{
    if n > 0 {
        let m = (n - 1) as nat;
        chunk_layers_sound(w, m, first, tokens, rows, cap, chunk);
        chunk_layer_sound(w, m as usize, first, tokens, rows[m as int], cap, chunk);
        sound_concat(
            chunk_layers_steps(w, m, first, tokens, rows, cap),
            chunk_layer_steps(w, m as usize, first, tokens, rows[m as int], cap),
            cap,
            chunk,
        );
    }
}

proof fn chunks_sound(
    w: ModelWeights,
    start: int,
    tokens: Seq<i32>,
    at: int,
    rows: Seq<u32>,
    cap: int,
    chunk: int,
)
    requires
        0 <= at,
        tokens.len() <= u32::MAX,
        chunk == chunk_size(tokens.len() as int, 0),
        rows.len() == N_LAYER,
        forall|il: int| 0 <= il < N_LAYER ==> #[trigger] rows[il] <= cap,
        addressable(cap),
        cap > 0,
    ensures
        all_sound(chunks_steps(w, start, tokens, at, rows, cap), cap, chunk),
    decreases tokens.len() - at,
{
    if at < tokens.len() {
        let nc = chunk_size(tokens.len() as int, at);
        let then = all_rows_after(w, start, at as nat, rows, cap);
        assert forall|il: int| 0 <= il < N_LAYER implies #[trigger] then[il] <= cap by {
            rows_never_exceed_capacity(w, il, start, at as nat, rows[il], cap);
        }
        let part = tokens.subrange(at, at + nc);
        chunk_layers_sound(w, N_LAYER as nat, start + at, part, then, cap, chunk);
        let a = seq![
            Step::UploadTokens { first: at as usize, count: nc as usize },
            Step::Need(Weight::Model(crate::model::ModelSlot::TokenEmbd)),
            Step::EmbedTokens {
                w: Weight::Model(crate::model::ModelSlot::TokenEmbd),
                tokens: Buf::Tokens,
                out: Buf::BHc,
                n_tok: nc as u32,
            },
        ];
        assert(all_sound(a, cap, chunk)) by {
            reveal(sound);
        }
        let b = chunk_layers_steps(w, N_LAYER as nat, start + at, part, then, cap);
        sound_concat(a, b, cap, chunk);
        chunks_sound(w, start, tokens, at + nc, rows, cap, chunk);
        sound_concat(
            chunk_steps(w, start + at, tokens, at, nc, then, cap),
            chunks_steps(w, start, tokens, at + nc, rows, cap),
            cap,
            chunk,
        );
    }
}

/// Taking a prompt touches no element outside its buffers, with chunk buffers of the size that
/// the plan allocates.
pub proof fn prefilling_stays_in_bounds(
    w: ModelWeights,
    start: int,
    tokens: Seq<i32>,
    rows: Seq<u32>,
    cap: int,
)
    requires
        0 < tokens.len() <= u32::MAX,
        rows.len() == N_LAYER,
        forall|il: int| 0 <= il < N_LAYER ==> #[trigger] rows[il] <= cap,
        addressable(cap),
        cap > 0,
    ensures
        prefill_steps(w, start, tokens, rows, cap)[0] == (Step::AllocChunk {
            tokens: chunk_size(tokens.len() as int, 0) as usize,
        }),
        all_sound(
            prefill_steps(w, start, tokens, rows, cap),
            cap,
            chunk_size(tokens.len() as int, 0),
        ),
{
    let chunk = chunk_size(tokens.len() as int, 0);
    ends_sound(0, cap, chunk);
    chunks_sound(w, start, tokens, 0, rows, cap, chunk);
    let a = seq![Step::AllocChunk { tokens: chunk as usize }];
    let b = a + chunks_steps(w, start, tokens, 0, rows, cap);
    let c = b + output_steps();
    let last = seq![Step::Advance { n: tokens.len() as usize }, Step::ReadLogits];
    assert(all_sound(a, cap, chunk)) by {
        reveal(sound);
    }
    assert(all_sound(last, cap, chunk)) by {
        reveal(sound);
    }
    sound_concat(a, chunks_steps(w, start, tokens, 0, rows, cap), cap, chunk);
    sound_concat(b, output_steps(), cap, chunk);
    sound_concat(c, last, cap, chunk);
    assert(c.len() > 0 && c[0] == a[0]);
}

} // verus!
