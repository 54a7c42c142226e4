//! Every token of every pass finds its whole window in the ring of each layer.
use vstd::prelude::*;

use crate::kernels::attention::RawCache;
use crate::kernels::kv_cache::in_ring;
use crate::model::{ModelSlot, ModelWeights, Weight, N_EMBD, N_LAYER, N_SWA};
use crate::session::compressor::{
    attn_compressor, attn_steps, emit_steps, index_compressor, index_steps, next_row,
    project_steps, rows_after, shift_steps,
};
use crate::session::decode::{decode_steps, embed_steps, layer_steps, layers_steps, output_steps};
use crate::session::layer::{
    attention_steps, attn_in, attn_out_steps, batch_in, expert_steps, ffn_in, hc_in_steps,
    index_query_steps, merge_steps, moe_steps, out_and_ffn_steps, qkv_steps, raw_count,
    router_steps, seen_rows, shared_steps,
};
use crate::session::prefill::{
    all_rows_after, batch_attention_steps, batch_qkv_steps, chunk_layer_steps, chunk_layers_steps,
    chunk_size, chunk_steps, chunk_token_steps, chunk_tokens_steps, chunks_steps, prefill_steps,
    take_row, token_attention_steps,
};
use crate::session::reads::{cache_at, read_position};
use crate::session::step::{Buf, Step, HC_DIM, MIX_HC};

verus! {

/// The step writes to the ring of layer `il`.
pub open spec fn writes_ring(s: Step, il: usize) -> bool {
    let ring = Buf::RawCache(il);
    match s {
        Step::Need(_) => false,
        Step::AllocChunk { .. } => false,
        Step::UploadTokens { .. } => false,
        Step::EmitRow { .. } => false,
        Step::Advance { .. } => false,
        Step::ReadLogits => false,
        Step::EmbedToken { out, .. } => out == ring,
        Step::EmbedTokens { out, .. } => out == ring,
        Step::RmsNormPlain { out, .. } => out == ring,
        Step::RmsNormWeight { out, .. } => out == ring,
        Step::MatmulF16 { out, .. } => out == ring,
        Step::HcSplitNorm { split, cur, normed, .. } => {
            split == ring || cur == ring || normed == ring
        },
        Step::QuantizeQ8 { xq, xscale, .. } => xq == ring || xscale == ring,
        Step::MatmulQ8 { out, .. } => out == ring,
        Step::MatmulQ8Batch { out, .. } => out == ring,
        Step::MatmulQ8Grouped { out, .. } => out == ring,
        Step::MatmulQ8HcExpand { out, out_hc, .. } => out == ring || out_hc == ring,
        Step::QkvNorm { qr_out, kv_out, .. } => qr_out == ring || kv_out == ring,
        Step::HeadNorm { x, .. } => x == ring,
        Step::Rope { x, .. } => x == ring,
        Step::StoreRaw { cache, .. } => cache == ring,
        Step::PrefillRaw { heads, .. } => heads == ring,
        Step::DecodeMixed { heads, .. } => heads == ring,
        Step::IndexScore { scores, .. } => scores == ring,
        Step::IndexTopk { topk, .. } => topk == ring,
        Step::IndexedMixed { heads, .. } => heads == ring,
        Step::CompressorStore { state_kv, state_score, .. } => {
            state_kv == ring || state_score == ring
        },
        Step::CompressorPool { out, .. } => out == ring,
        Step::CompressorShift4 { state_kv, state_score, .. } => {
            state_kv == ring || state_score == ring
        },
        Step::Fp8Quantize { x, .. } => x == ring,
        Step::CopyAt { dst, .. } => dst == ring,
        Step::Swiglu { out, .. } => out == ring,
        Step::RouterSelect { probs, selected, weights, .. } => {
            probs == ring || selected == ring || weights == ring
        },
        Step::Q8kQuantize { out, .. } => out == ring,
        Step::MoeGateUpMid { gate, up, mid, .. } => gate == ring || up == ring || mid == ring,
        Step::MoeDownSum { out, .. } => out == ring,
        Step::HcExpand { out, .. } => out == ring,
        Step::OutputHcWeights { out, .. } => out == ring,
        Step::HcWeightedSum { out, .. } => out == ring,
        Step::CopyRow { dst, .. } => dst == ring,
        Step::Swap { a, b } => a == ring || b == ring,
    }
}

/// The step attends to rows of the ring of layer `il`.
pub open spec fn reads_ring(s: Step, il: usize) -> bool {
    match s {
        Step::PrefillRaw { raw, .. } => raw == Buf::RawCache(il),
        Step::DecodeMixed { raw, .. } => raw == Buf::RawCache(il),
        Step::IndexedMixed { raw, .. } => raw == Buf::RawCache(il),
        _ => false,
    }
}

/// The token at `pos` is the last of the `end` positions that were stored, and every position that
/// it reads is in the ring.
pub open spec fn window_stored(pos: u32, end: int) -> bool {
    &&& end == pos + 1
    &&& forall|r: int|
        0 <= r < raw_count(pos as int) ==> in_ring(
            #[trigger] read_position(pos as int, r),
            end,
            N_SWA as int,
        )
}

/// The step leaves the ring of layer `il` in order, where the first `end` positions have been
/// stored: positions are stored one behind the other, by nothing but stores, and attention finds
/// what it reads.
pub open spec fn keeps_ring(s: Step, il: usize, end: int) -> bool {
    match s {
        Step::StoreRaw { cache, raw_cap, pos, n_tok, .. } => cache == Buf::RawCache(il) ==> {
            &&& pos == end
            &&& n_tok <= N_SWA
            &&& raw_cap == N_SWA
        },
        Step::PrefillRaw { raw, n_tok, window, .. } => {
            &&& !writes_ring(s, il)
            &&& raw == Buf::RawCache(il) ==> n_tok == end && end <= N_SWA && window == N_SWA
        },
        Step::DecodeMixed { raw, pos, n_raw, raw_cap, raw_start, window, .. } => {
            &&& !writes_ring(s, il)
            &&& raw == Buf::RawCache(il) ==> {
                &&& window_stored(pos, end)
                &&& window == N_SWA
                &&& (RawCache { n_tokens: 1, pos0: pos, n_raw, raw_cap, raw_start }) == cache_at(
                    pos,
                )
            }
        },
        Step::IndexedMixed { raw, pos, n_raw, raw_cap, raw_start, window, .. } => {
            &&& !writes_ring(s, il)
            &&& raw == Buf::RawCache(il) ==> {
                &&& window_stored(pos, end)
                &&& window == N_SWA
                &&& (RawCache { n_tokens: 1, pos0: pos, n_raw, raw_cap, raw_start }) == cache_at(
                    pos,
                )
            }
        },
        _ => !writes_ring(s, il),
    }
}

/// How many positions have been stored in the ring of layer `il` after a step.
pub open spec fn ring_after(s: Step, il: usize, end: int) -> int {
    match s {
        Step::StoreRaw { cache, pos, n_tok, .. } => if cache == Buf::RawCache(il) {
            pos + n_tok
        } else {
            end
        },
        _ => end,
    }
}

/// How many positions have been stored after a list of steps.
pub open spec fn ring_end(steps: Seq<Step>, il: usize, end: int) -> int
    decreases steps.len(),
{
    if steps.len() == 0 {
        end
    } else {
        ring_after(steps.last(), il, ring_end(steps.drop_last(), il, end))
    }
}

/// Every step of a list leaves the ring in order.
pub open spec fn ring_kept(steps: Seq<Step>, il: usize, end: int) -> bool
    decreases steps.len(),
{
    steps.len() > 0 ==> {
        &&& ring_kept(steps.drop_last(), il, end)
        &&& keeps_ring(steps.last(), il, ring_end(steps.drop_last(), il, end))
    }
}

proof fn ring_concat(a: Seq<Step>, b: Seq<Step>, il: usize, end: int)
    ensures
        ring_end(a + b, il, end) == ring_end(b, il, ring_end(a, il, end)),
        ring_kept(a + b, il, end) == (ring_kept(a, il, end) && ring_kept(
            b,
            il,
            ring_end(a, il, end),
        )),
    decreases b.len(),
{
    if b.len() == 0 {
        assert(a + b =~= a);
    } else {
        assert((a + b).drop_last() =~= a + b.drop_last());
        ring_concat(a, b.drop_last(), il, end);
    }
}

/// No step has to do with the ring of layer `il`.
#[verifier::opaque]
spec fn still(steps: Seq<Step>, il: usize) -> bool {
    forall|i: int|
        0 <= i < steps.len() ==> !writes_ring(#[trigger] steps[i], il) && !reads_ring(steps[i], il)
}

proof fn still_concat(a: Seq<Step>, b: Seq<Step>, il: usize)
    requires
        still(a, il),
        still(b, il),
    ensures
        still(a + b, il),
{
    reveal(still);
    let s = a + b;
    assert forall|i: int| 0 <= i < s.len() implies !writes_ring(#[trigger] s[i], il)
        && !reads_ring(s[i], il) by {
        if i < a.len() {
            assert(s[i] == a[i]);
        } else {
            assert(s[i] == b[i - a.len()]);
        }
    }
}

proof fn still_keeps(steps: Seq<Step>, il: usize, end: int)
    requires
        still(steps, il),
    ensures
        ring_end(steps, il, end) == end,
        ring_kept(steps, il, end),
    decreases steps.len(),
{
    reveal(still);
    if steps.len() > 0 {
        let rest = steps.drop_last();
        assert forall|i: int| 0 <= i < rest.len() implies !writes_ring(#[trigger] rest[i], il)
            && !reads_ring(rest[i], il) by {
            assert(rest[i] == steps[i]);
        }
        still_keeps(rest, il, end);
        let s = steps[steps.len() - 1];
        assert(!writes_ring(s, il) && !reads_ring(s, il));
    }
}

proof fn streams_are_still(l: usize, nc: u32, il: usize)
    ensures
        still(hc_in_steps(attn_in(l)), il),
        still(hc_in_steps(batch_in(l, nc)), il),
        still(hc_in_steps(ffn_in(l)), il),
{
    reveal(still);
}

proof fn queries_are_still(w: ModelWeights, l: usize, pos: u32, il: usize)
    ensures
        still(index_query_steps(w, l, pos), il),
        still(qkv_steps(l, pos).drop_last(), il),
{
    reveal(still);
}

proof fn batch_queries_are_still(l: usize, pos: u32, nc: u32, il: usize)
    ensures
        still(batch_qkv_steps(l, pos, nc), il),
{
    reveal(still);
}

proof fn compressors_are_still(
    w: ModelWeights,
    l: usize,
    pos: u32,
    row: u32,
    cap: int,
    il: usize,
)
    ensures
        still(index_steps(w, l, pos, row, cap), il),
        still(attn_steps(w, l, pos, row, cap), il),
{
    let i = index_compressor(l);
    let a = attn_compressor(l);
    let emit = seq![Step::EmitRow { layer: l }];
    assert(still(project_steps(i, pos), il) && still(emit_steps(i, pos, row), il) && still(
        shift_steps(i),
        il,
    )) by {
        reveal(still);
    }
    assert(still(project_steps(a, pos), il) && still(emit_steps(a, pos, row), il) && still(
        shift_steps(a),
        il,
    )) by {
        reveal(still);
    }
    assert(still(emit, il) && still(Seq::empty(), il)) by {
        reveal(still);
    }
    still_concat(project_steps(i, pos), emit_steps(i, pos, row), il);
    still_concat(project_steps(i, pos) + emit_steps(i, pos, row), shift_steps(i), il);
    still_concat(project_steps(a, pos), emit_steps(a, pos, row), il);
    still_concat(project_steps(a, pos) + emit_steps(a, pos, row), shift_steps(a), il);
    still_concat(
        project_steps(a, pos) + emit_steps(a, pos, row) + shift_steps(a),
        emit,
        il,
    );
}

proof fn experts_are_still(w: ModelWeights, l: usize, pos: u32, token: i32, il: usize)
    ensures
        still(out_and_ffn_steps(w, l, pos, token), il),
{
    streams_are_still(l, 1, il);
    assert(still(attn_out_steps(l, pos), il)) by {
        reveal(still);
    }
    assert(still(shared_steps(w, l), il)) by {
        reveal(still);
    }
    assert(still(router_steps(w, l, token), il)) by {
        reveal(still);
    }
    assert(still(expert_steps(l), il)) by {
        reveal(still);
    }
    assert(still(merge_steps(w, l), il)) by {
        reveal(still);
    }
    assert(still(Seq::empty(), il)) by {
        reveal(still);
    }
    still_concat(router_steps(w, l, token), expert_steps(l), il);
    let a = attn_out_steps(l, pos);
    let b = a + hc_in_steps(ffn_in(l));
    let c = b + shared_steps(w, l);
    let d = c + moe_steps(w, l, token);
    still_concat(a, hc_in_steps(ffn_in(l)), il);
    still_concat(b, shared_steps(w, l), il);
    still_concat(c, moe_steps(w, l, token), il);
    still_concat(d, merge_steps(w, l), il);
}

/// The positions stored in the ring of layer `il` when layer `l` has seen those up to `now`, where
/// `end` were stored before.
spec fn end_in(l: usize, il: usize, end: int, now: int) -> int {
    if l == il {
        now
    } else {
        end
    }
}

proof fn queries_keep(l: usize, pos: u32, il: usize, end: int, w: ModelWeights)
    requires
        l == il ==> end == pos,
    ensures
        ring_kept(qkv_steps(l, pos), il, end),
        ring_end(qkv_steps(l, pos), il, end) == end_in(l, il, end, pos + 1),
{
    queries_are_still(w, l, pos, il);
    still_keeps(qkv_steps(l, pos).drop_last(), il, end);
}

proof fn window_is_stored(pos: u32)
    ensures
        window_stored(pos, pos + 1),
{
}

proof fn attention_keeps(w: ModelWeights, l: usize, pos: u32, row: u32, il: usize, end: int)
    requires
        l == il ==> end == pos + 1,
    ensures
        ring_kept(attention_steps(w, l, pos, row), il, end),
        ring_end(attention_steps(w, l, pos, row), il, end) == end,
{
    window_is_stored(pos);
    let s = attention_steps(w, l, pos, row);
    let rest = s.drop_last();
    assert(still(rest, il)) by {
        reveal(still);
    }
    still_keeps(rest, il, end);
}

proof fn layer_keeps(
    w: ModelWeights,
    l: usize,
    pos: u32,
    token: i32,
    row: u32,
    cap: int,
    il: usize,
    end: int,
)
    requires
        l == il ==> end == pos,
    ensures
        ring_kept(layer_steps(w, l, pos, token, row, cap), il, end),
        ring_end(layer_steps(w, l, pos, token, row, cap), il, end) == end_in(
            l,
            il,
            end,
            pos + 1,
        ),
{
    let after = next_row(w, l as int, pos as int, row, cap);
    let now = end_in(l, il, end, pos + 1);
    streams_are_still(l, 1, il);
    queries_are_still(w, l, pos, il);
    compressors_are_still(w, l, pos, row, cap, il);
    experts_are_still(w, l, pos, token, il);
    let p1 = hc_in_steps(attn_in(l));
    let p2 = p1 + qkv_steps(l, pos);
    let p3 = p2 + index_query_steps(w, l, pos);
    let p4 = p3 + index_steps(w, l, pos, row, cap);
    let p5 = p4 + attn_steps(w, l, pos, row, cap);
    let p6 = p5 + attention_steps(w, l, pos, after);
    still_keeps(p1, il, end);
    ring_concat(p1, qkv_steps(l, pos), il, end);
    queries_keep(l, pos, il, end, w);
    ring_concat(p2, index_query_steps(w, l, pos), il, end);
    still_keeps(index_query_steps(w, l, pos), il, now);
    ring_concat(p3, index_steps(w, l, pos, row, cap), il, end);
    still_keeps(index_steps(w, l, pos, row, cap), il, now);
    ring_concat(p4, attn_steps(w, l, pos, row, cap), il, end);
    still_keeps(attn_steps(w, l, pos, row, cap), il, now);
    ring_concat(p5, attention_steps(w, l, pos, after), il, end);
    attention_keeps(w, l, pos, after, il, now);
    ring_concat(p6, out_and_ffn_steps(w, l, pos, token), il, end);
    still_keeps(out_and_ffn_steps(w, l, pos, token), il, now);
}

/// The positions stored in the ring of layer `il` when the first `n` layers have seen those up to
/// `now`.
spec fn end_below(n: nat, il: usize, end: int, now: int) -> int {
    if il < n {
        now
    } else {
        end
    }
}

proof fn layers_keep(
    w: ModelWeights,
    n: nat,
    pos: u32,
    token: i32,
    rows: Seq<u32>,
    cap: int,
    il: usize,
)
    requires
        n <= N_LAYER,
    ensures
        ring_kept(layers_steps(w, n, pos, token, rows, cap), il, pos as int),
        ring_end(layers_steps(w, n, pos, token, rows, cap), il, pos as int) == end_below(
            n,
            il,
            pos as int,
            pos + 1,
        ),
    decreases n,
{
    if n > 0 {
        let m = (n - 1) as nat;
        layers_keep(w, m, pos, token, rows, cap, il);
        let end = end_below(m, il, pos as int, pos + 1);
        layer_keeps(w, m as usize, pos, token, rows[m as int], cap, il, end);
        ring_concat(
            layers_steps(w, m, pos, token, rows, cap),
            layer_steps(w, m as usize, pos, token, rows[m as int], cap),
            il,
            pos as int,
        );
    }
}

proof fn ends_are_still(token: i32, il: usize)
    ensures
        still(embed_steps(token), il),
        still(output_steps(), il),
        still(seq![Step::ReadLogits], il),
{
    reveal(still);
}

/// While a token is decoded it finds its whole window in the ring of every layer: all earlier
/// positions of the window were stored before, and its own is stored before it attends.
pub proof fn decoding_finds_its_window(
    w: ModelWeights,
    pos: u32,
    token: i32,
    rows: Seq<u32>,
    cap: int,
    il: usize,
)
    requires
        il < N_LAYER,
    ensures
        ring_kept(decode_steps(w, pos, token, rows, cap), il, pos as int),
        ring_end(decode_steps(w, pos, token, rows, cap), il, pos as int) == pos + 1,
{
    let l = layers_steps(w, N_LAYER as nat, pos, token, rows, cap);
    ends_are_still(token, il);
    still_keeps(embed_steps(token), il, pos as int);
    layers_keep(w, N_LAYER as nat, pos, token, rows, cap, il);
    ring_concat(embed_steps(token), l, il, pos as int);
    ring_concat(embed_steps(token) + l, output_steps(), il, pos as int);
    still_keeps(output_steps(), il, pos + 1);
    ring_concat(
        embed_steps(token) + l + output_steps(),
        seq![Step::ReadLogits],
        il,
        pos as int,
    );
    still_keeps(seq![Step::ReadLogits], il, pos + 1);
}

proof fn token_attention_keeps(
    l: usize,
    first: int,
    t: int,
    n_comp: u32,
    il: usize,
    end: int,
)
    requires
        0 <= first,
        0 <= t,
        first + t <= u32::MAX,
        first != 0 && l == il ==> end == first + t,
    ensures
        ring_kept(token_attention_steps(l, first, t, n_comp), il, end),
        ring_end(token_attention_steps(l, first, t, n_comp), il, end) == if first == 0 {
            end
        } else {
            end_in(l, il, end, first + t + 1)
        },
{
    let pos = (first + t) as u32;
    window_is_stored(pos);
    let s = token_attention_steps(l, first, t, n_comp);
    if first == 0 {
        assert(still(s, il)) by {
            reveal(still);
        }
        still_keeps(s, il, end);
    } else {
        let copies = s.take(2);
        let store = seq![s[2]];
        let need = seq![s[3]];
        let attend = seq![s[4]];
        let now = end_in(l, il, end, first + t + 1);
        assert(still(copies, il) && still(need, il)) by {
            reveal(still);
        }
        still_keeps(copies, il, end);
        ring_concat(copies, store, il, end);
        assert(ring_kept(store, il, end) && ring_end(store, il, end) == now) by {
            reveal_with_fuel(ring_kept, 2);
            reveal_with_fuel(ring_end, 2);
            assert(store.drop_last() =~= Seq::empty());
        }
        ring_concat(copies + store, need, il, end);
        still_keeps(need, il, now);
        ring_concat(copies + store + need, attend, il, end);
        assert(ring_kept(attend, il, now) && ring_end(attend, il, now) == now) by {
            reveal_with_fuel(ring_kept, 2);
            reveal_with_fuel(ring_end, 2);
            assert(attend.drop_last() =~= Seq::empty());
        }
        assert(s =~= copies + store + need + attend);
    }
}

proof fn chunk_token_keeps(
    w: ModelWeights,
    l: usize,
    first: int,
    t: int,
    token: i32,
    row: u32,
    cap: int,
    il: usize,
    end: int,
)
    requires
        0 <= first,
        0 <= t,
        first + t <= u32::MAX,
        first != 0 && l == il ==> end == first + t,
    ensures
        ring_kept(chunk_token_steps(w, l, first, t, token, row, cap), il, end),
        ring_end(chunk_token_steps(w, l, first, t, token, row, cap), il, end) == if first == 0 {
            end
        } else {
            end_in(l, il, end, first + t + 1)
        },
{
    let pos = (first + t) as u32;
    let after = next_row(w, l as int, pos as int, row, cap);
    let now = if first == 0 {
        end
    } else {
        end_in(l, il, end, first + t + 1)
    };
    let p1 = seq![
        take_row(Buf::BHc, t, HC_DIM, Buf::CurHc),
        take_row(Buf::BHcSplit, t, MIX_HC, Buf::HcSplit),
        take_row(Buf::BAttnNorm, t, N_EMBD, Buf::AttnNorm),
    ];
    let last = seq![
        Step::CopyRow {
            src: Buf::CurHc,
            src_at: 0,
            dst: Buf::BHcNext,
            dst_at: (t * HC_DIM) as usize,
            n: HC_DIM,
        },
    ];
    assert(still(p1, il) && still(last, il)) by {
        reveal(still);
    }
    compressors_are_still(w, l, pos, row, cap, il);
    experts_are_still(w, l, pos, token, il);
    let p2 = p1 + index_steps(w, l, pos, row, cap);
    let p3 = p2 + attn_steps(w, l, pos, row, cap);
    let m = token_attention_steps(l, first, t, seen_rows(l as int, after));
    let p4 = p3 + m;
    let p5 = p4 + out_and_ffn_steps(w, l, pos, token);
    still_concat(p1, index_steps(w, l, pos, row, cap), il);
    still_concat(p2, attn_steps(w, l, pos, row, cap), il);
    still_keeps(p3, il, end);
    ring_concat(p3, m, il, end);
    token_attention_keeps(l, first, t, seen_rows(l as int, after), il, end);
    ring_concat(p4, out_and_ffn_steps(w, l, pos, token), il, end);
    still_keeps(out_and_ffn_steps(w, l, pos, token), il, now);
    ring_concat(p5, last, il, end);
    still_keeps(last, il, now);
}

proof fn chunk_tokens_keep(
    w: ModelWeights,
    l: usize,
    first: int,
    n: nat,
    tokens: Seq<i32>,
    row: u32,
    cap: int,
    il: usize,
    end: int,
)
    requires
        0 <= first,
        first + n <= u32::MAX,
        first != 0 && l == il ==> end == first,
    ensures
        ring_kept(chunk_tokens_steps(w, l, first, n, tokens, row, cap), il, end),
        ring_end(chunk_tokens_steps(w, l, first, n, tokens, row, cap), il, end) == if first == 0 {
            end
        } else {
            end_in(l, il, end, first + n)
        },
    decreases n,
{
    if n > 0 {
        let m = (n - 1) as nat;
        chunk_tokens_keep(w, l, first, m, tokens, row, cap, il, end);
        let r = rows_after(w, l as int, first, m, row, cap);
        let now = if first == 0 {
            end
        } else {
            end_in(l, il, end, first + m)
        };
        chunk_token_keeps(w, l, first, m as int, tokens[m as int], r, cap, il, now);
        ring_concat(
            chunk_tokens_steps(w, l, first, m, tokens, row, cap),
            chunk_token_steps(w, l, first, m as int, tokens[m as int], r, cap),
            il,
            end,
        );
    }
}

proof fn batch_attention_keeps(l: usize, pos: u32, nc: u32, il: usize, end: int)
    requires
        nc <= N_SWA,
        l == il ==> end == pos,
    ensures
        ring_kept(batch_attention_steps(l, pos, nc), il, end),
        ring_end(batch_attention_steps(l, pos, nc), il, end) == if pos == 0 {
            end_in(l, il, end, nc as int)
        } else {
            end
        },
{
    let s = batch_attention_steps(l, pos, nc);
    if pos == 0 {
        let store = seq![s[0]];
        let need = seq![s[1]];
        let attend = seq![s[2]];
        let now = end_in(l, il, end, nc as int);
        assert(still(need, il)) by {
            reveal(still);
        }
        assert(ring_kept(store, il, end) && ring_end(store, il, end) == now) by {
            reveal_with_fuel(ring_kept, 2);
            reveal_with_fuel(ring_end, 2);
            assert(store.drop_last() =~= Seq::empty());
        }
        ring_concat(store, need, il, end);
        still_keeps(need, il, now);
        ring_concat(store + need, attend, il, end);
        assert(ring_kept(attend, il, now) && ring_end(attend, il, now) == now) by {
            reveal_with_fuel(ring_kept, 2);
            reveal_with_fuel(ring_end, 2);
            assert(attend.drop_last() =~= Seq::empty());
        }
        assert(s =~= store + need + attend);
    }
}

proof fn chunk_layer_keeps(
    w: ModelWeights,
    l: usize,
    first: int,
    tokens: Seq<i32>,
    row: u32,
    cap: int,
    il: usize,
    end: int,
)
    requires
        0 <= first,
        tokens.len() <= N_SWA,
        first + tokens.len() <= u32::MAX,
        l == il ==> end == first,
    ensures
        ring_kept(chunk_layer_steps(w, l, first, tokens, row, cap), il, end),
        ring_end(chunk_layer_steps(w, l, first, tokens, row, cap), il, end) == end_in(
            l,
            il,
            end,
            first + tokens.len(),
        ),
{
    let nc = tokens.len() as u32;
    let p1 = hc_in_steps(batch_in(l, nc));
    let p2 = p1 + batch_qkv_steps(l, first as u32, nc);
    let b = batch_attention_steps(l, first as u32, nc);
    let p3 = p2 + b;
    let body = chunk_tokens_steps(w, l, first, tokens.len(), tokens, row, cap);
    let last = seq![Step::Swap { a: Buf::BHc, b: Buf::BHcNext }];
    streams_are_still(l, nc, il);
    batch_queries_are_still(l, first as u32, nc, il);
    assert(still(last, il)) by {
        reveal(still);
    }
    still_concat(p1, batch_qkv_steps(l, first as u32, nc), il);
    still_keeps(p2, il, end);
    ring_concat(p2, b, il, end);
    batch_attention_keeps(l, first as u32, nc, il, end);
    let now = ring_end(p3, il, end);
    ring_concat(p3, body, il, end);
    chunk_tokens_keep(w, l, first, tokens.len(), tokens, row, cap, il, now);
    ring_concat(p3 + body, last, il, end);
    still_keeps(last, il, ring_end(p3 + body, il, end));
}

proof fn chunk_layers_keep(
    w: ModelWeights,
    n: nat,
    first: int,
    tokens: Seq<i32>,
    rows: Seq<u32>,
    cap: int,
    il: usize,
)
    requires
        n <= N_LAYER,
        0 <= first,
        tokens.len() <= N_SWA,
        first + tokens.len() <= u32::MAX,
    ensures
        ring_kept(chunk_layers_steps(w, n, first, tokens, rows, cap), il, first),
        ring_end(chunk_layers_steps(w, n, first, tokens, rows, cap), il, first) == end_below(
            n,
            il,
            first,
            first + tokens.len(),
        ),
    decreases n,
{
    if n > 0 {
        let m = (n - 1) as nat;
        chunk_layers_keep(w, m, first, tokens, rows, cap, il);
        let end = end_below(m, il, first, first + tokens.len());
        chunk_layer_keeps(w, m as usize, first, tokens, rows[m as int], cap, il, end);
        ring_concat(
            chunk_layers_steps(w, m, first, tokens, rows, cap),
            chunk_layer_steps(w, m as usize, first, tokens, rows[m as int], cap),
            il,
            first,
        );
    }
}

proof fn chunks_keep(
    w: ModelWeights,
    start: int,
    tokens: Seq<i32>,
    at: int,
    rows: Seq<u32>,
    cap: int,
    il: usize,
)
    requires
        il < N_LAYER,
        0 <= at <= tokens.len(),
        0 <= start,
        start + tokens.len() <= u32::MAX,
    ensures
        ring_kept(chunks_steps(w, start, tokens, at, rows, cap), il, start + at),
        ring_end(chunks_steps(w, start, tokens, at, rows, cap), il, start + at) == start
            + tokens.len(),
    decreases tokens.len() - at,
{
    if at < tokens.len() {
        let nc = chunk_size(tokens.len() as int, at);
        let part = tokens.subrange(at, at + nc);
        let then = all_rows_after(w, start, at as nat, rows, cap);
        let head = seq![
            Step::UploadTokens { first: at as usize, count: nc as usize },
            Step::Need(Weight::Model(ModelSlot::TokenEmbd)),
            Step::EmbedTokens {
                w: Weight::Model(ModelSlot::TokenEmbd),
                tokens: Buf::Tokens,
                out: Buf::BHc,
                n_tok: nc as u32,
            },
        ];
        let body = chunk_layers_steps(w, N_LAYER as nat, start + at, part, then, cap);
        assert(still(head, il)) by {
            reveal(still);
        }
        still_keeps(head, il, start + at);
        ring_concat(head, body, il, start + at);
        chunk_layers_keep(w, N_LAYER as nat, start + at, part, then, cap, il);
        chunks_keep(w, start, tokens, at + nc, rows, cap, il);
        ring_concat(
            chunk_steps(w, start + at, tokens, at, nc, then, cap),
            chunks_steps(w, start, tokens, at + nc, rows, cap),
            il,
            start + at,
        );
    }
}

/// Every token of every chunk of a prompt finds its whole window in the ring of every layer, in a
/// fresh session and behind earlier tokens: the tokens of the first chunk of a fresh session attend
/// together when all of them are stored, any other token as the last that is stored.
pub proof fn prefilling_finds_its_window(
    w: ModelWeights,
    start: int,
    tokens: Seq<i32>,
    rows: Seq<u32>,
    cap: int,
    il: usize,
)
    requires
        il < N_LAYER,
        0 <= start,
        start + tokens.len() <= u32::MAX,
    ensures
        ring_kept(prefill_steps(w, start, tokens, rows, cap), il, start),
        ring_end(prefill_steps(w, start, tokens, rows, cap), il, start) == start + tokens.len(),
{
    let head = seq![
        Step::AllocChunk { tokens: chunk_size(tokens.len() as int, 0) as usize },
    ];
    let body = chunks_steps(w, start, tokens, 0, rows, cap);
    let last = seq![Step::Advance { n: tokens.len() as usize }, Step::ReadLogits];
    let end = start + tokens.len();
    assert(still(head, il) && still(last, il)) by {
        reveal(still);
    }
    ends_are_still(0, il);
    still_keeps(head, il, start);
    ring_concat(head, body, il, start);
    chunks_keep(w, start, tokens, 0, rows, cap, il);
    ring_concat(head + body, output_steps(), il, start);
    still_keeps(output_steps(), il, end);
    ring_concat(head + body + output_steps(), last, il, start);
    still_keeps(last, il, end);
}

/// In a chunk that does not attend together, the attention of a token is the step that decoding the
/// token would take, unless decoding would select rows.
pub proof fn prompt_tokens_attend_like_decoding(
    w: ModelWeights,
    il: usize,
    first: int,
    t: int,
    row: u32,
)
    requires
        first != 0,
        !(attention_steps(w, il, (first + t) as u32, row).last() is IndexedMixed),
    ensures
        ({
            let own = token_attention_steps(il, first, t, seen_rows(il as int, row));
            own.skip(3) == attention_steps(w, il, (first + t) as u32, row)
        }),
{
    let own = token_attention_steps(il, first, t, seen_rows(il as int, row));
    assert(own.skip(3) =~= attention_steps(w, il, (first + t) as u32, row));
}

} // verus!
