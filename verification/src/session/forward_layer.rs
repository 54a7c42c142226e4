//! What a plan computes of a token in one layer.
use vstd::prelude::*;

use crate::model::{LayerSlot, ModelWeights, Weight};
use crate::session::agree::{
    agree, layer_bufs, lasting, run_concat, run_leaves, run_none, run_push, untouched,
    untouched_concat,
};
use crate::session::compressor::{
    attn_compressor, attn_steps, emit_steps, index_compressor, index_steps, next_row, project_steps,
    shift_steps, window_ends,
};
use crate::session::decode::layer_steps;
use crate::session::forward::{
    attention_output, attention_rows, attention_slots, block_input, chosen, compressed_with,
    feed_forward, feed_forward_slots, index_query, index_rows, query, routed_experts, rows_seen,
    state_after, state_of, state_with, streams_after,
};
use crate::session::forward_parts::{
    attn_emit_computes, attn_emit_computes_alone, attn_input_computes, attn_out_computes,
    attn_project_computes, attn_state, experts_compute, ffn_input_computes, index_emit_computes,
    index_project_computes, index_query_computes, index_state, indexed_attention_computes,
    kernel_writes, mixed_attention_computes, qkv_computes, shared_computes,
};
use crate::session::layer::{
    attention_steps, attn_in, attn_out_steps, expert_steps, ffn_in, has_indexer, hc_in_steps,
    index_query_steps, merge_steps, moe_steps, out_and_ffn_steps, qkv_steps, router_steps,
    seen_rows, shared_steps,
};
use crate::session::meaning::{args, exec, run, Memory};
use crate::session::state::holds;
use crate::session::step::{ratio_of, Buf, Step};

verus! {

/// Steps leave what they do not write.
proof fn leave_all<V>(
    k: spec_fn(Step, int, Seq<V>) -> V,
    p: Seq<i32>,
    m: Memory<V>,
    steps: Seq<Step>,
    s: Set<Buf>,
)
    requires
        forall|b: Buf| #[trigger] s.contains(b) ==> untouched(steps, b),
    ensures
        agree(run(k, p, m, steps), m, s),
{
    assert forall|b: Buf| #[trigger] s.contains(b) implies (run(k, p, m, steps).at)(b, 0) == (
    m.at)(b, 0) by {
        run_leaves(k, p, m, steps, b, 0);
    }
}

/// The attention compressor after a token.
pub(crate) proof fn attn_compressor_computes<V>(
    k: spec_fn(Step, int, Seq<V>) -> V,
    p: Seq<i32>,
    m: Memory<V>,
    w: ModelWeights,
    il: usize,
    pos: u32,
    row: u32,
    cap: int,
)
    ensures
        attn_state(run(k, p, m, attn_steps(w, il, pos, row, cap)), il) == if ratio_of(il as int)
            != 0 && holds(w, il as int, LayerSlot::AttnCompressorKv) {
            compressed_with(
                k,
                il,
                attention_rows(),
                pos as int,
                row,
                cap,
                (m.at)(Buf::AttnNorm, 0),
                attn_state(m, il),
            )
        } else {
            attn_state(m, il)
        },
{
    let c = attn_compressor(il);
    let x = (m.at)(Buf::AttnNorm, 0);
    let first = project_steps(c, pos);
    run_none(k, p, m);
    if ratio_of(il as int) != 0 && holds(w, il as int, LayerSlot::AttnCompressorKv) {
        let m1 = run(k, p, m, first);
        attn_project_computes(k, p, m, il, pos);
        assert(attn_state(m1, il) == state_with(
            k,
            il,
            attention_rows(),
            pos as int,
            x,
            attn_state(m, il),
        ));
        if window_ends(il as int, pos as int, row as int, cap) {
            let emit = emit_steps(c, pos, row);
            let shift = shift_steps(c);
            let last = seq![Step::EmitRow { layer: il }];
            assert(attn_steps(w, il, pos, row, cap) =~= first + (emit + shift) + last);
            run_concat(k, p, m, first + (emit + shift), last);
            run_concat(k, p, m, first, emit + shift);
            let m2 = run(k, p, m1, emit + shift);
            if ratio_of(il as int) == 4 {
                attn_emit_computes(k, p, m1, il, pos, row);
            } else {
                assert(emit + shift =~= emit);
                attn_emit_computes_alone(k, p, m1, il, pos, row);
            }
            run_push(k, p, m2, Seq::empty(), last[0]);
            kernel_writes(k, p, m2, last[0]);
            assert(last =~= seq![last[0]]);
        }
    }
}

/// The index compressor after a token.
pub(crate) proof fn index_compressor_computes<V>(
    k: spec_fn(Step, int, Seq<V>) -> V,
    p: Seq<i32>,
    m: Memory<V>,
    w: ModelWeights,
    il: usize,
    pos: u32,
    row: u32,
    cap: int,
)
    ensures
        index_state(run(k, p, m, index_steps(w, il, pos, row, cap)), il) == if ratio_of(il as int)
            == 4 && holds(w, il as int, LayerSlot::IndexerCompressorKv) {
            compressed_with(
                k,
                il,
                index_rows(),
                pos as int,
                row,
                cap,
                (m.at)(Buf::AttnNorm, 0),
                index_state(m, il),
            )
        } else {
            index_state(m, il)
        },
{
    let c = index_compressor(il);
    let x = (m.at)(Buf::AttnNorm, 0);
    let first = project_steps(c, pos);
    run_none(k, p, m);
    if ratio_of(il as int) == 4 && holds(w, il as int, LayerSlot::IndexerCompressorKv) {
        let m1 = run(k, p, m, first);
        index_project_computes(k, p, m, il, pos);
        assert(index_state(m1, il) == state_with(
            k,
            il,
            index_rows(),
            pos as int,
            x,
            index_state(m, il),
        ));
        if window_ends(il as int, pos as int, row as int, cap) {
            let emit = emit_steps(c, pos, row);
            let shift = shift_steps(c);
            assert(index_steps(w, il, pos, row, cap) =~= first + (emit + shift));
            run_concat(k, p, m, first, emit + shift);
            index_emit_computes(k, p, m1, il, pos, row);
        }
    }
}

/// What the index compressor does not write.
pub(crate) proof fn index_steps_leave(
    w: ModelWeights,
    il: usize,
    pos: u32,
    row: u32,
    cap: int,
    b: Buf,
)
    requires
        b != Buf::CompKvCur,
        b != Buf::CompScCur,
        b != Buf::IndexCompEmitPre,
        b != Buf::IndexCompEmitPost,
        b != Buf::IndexCompCache(il),
        b != Buf::IndexStateKv(il),
        b != Buf::IndexStateScore(il),
    ensures
        untouched(index_steps(w, il, pos, row, cap), b),
{
    let i = index_compressor(il);
    untouched_concat(project_steps(i, pos), emit_steps(i, pos, row), b);
    untouched_concat(project_steps(i, pos) + emit_steps(i, pos, row), shift_steps(i), b);
}

/// What the attention compressor does not write.
pub(crate) proof fn attn_steps_leave(
    w: ModelWeights,
    il: usize,
    pos: u32,
    row: u32,
    cap: int,
    b: Buf,
)
    requires
        b != Buf::CompKvCur,
        b != Buf::CompScCur,
        b != Buf::CompEmitPre,
        b != Buf::CompEmitPost,
        b != Buf::AttnCompCache(il),
        b != Buf::AttnStateKv(il),
        b != Buf::AttnStateScore(il),
    ensures
        untouched(attn_steps(w, il, pos, row, cap), b),
{
    let a = attn_compressor(il);
    untouched_concat(project_steps(a, pos), emit_steps(a, pos, row), b);
    let x = project_steps(a, pos) + emit_steps(a, pos, row);
    untouched_concat(x, shift_steps(a), b);
    untouched_concat(x + shift_steps(a), seq![Step::EmitRow { layer: il }], b);
}

/// What precedes attention in a layer.
pub open spec fn head_steps(
    w: ModelWeights,
    il: usize,
    pos: u32,
    row: u32,
    cap: int,
) -> Seq<Step> {
    hc_in_steps(attn_in(il)) + qkv_steps(il, pos) + index_query_steps(w, il, pos) + index_steps(
        w,
        il,
        pos,
        row,
        cap,
    ) + attn_steps(w, il, pos, row, cap)
}

/// The memory before the compressors of a layer.
proof fn inputs_compute<V>(
    k: spec_fn(Step, int, Seq<V>) -> V,
    p: Seq<i32>,
    m: Memory<V>,
    w: ModelWeights,
    il: usize,
    pos: u32,
)
    ensures
        ({
            let e = run(
                k,
                p,
                m,
                hc_in_steps(attn_in(il)) + qkv_steps(il, pos) + index_query_steps(w, il, pos),
            );
            let hc = (m.at)(Buf::CurHc, 0);
            let input = block_input(k, il, attention_slots(), hc);
            &&& (e.at)(Buf::CurHc, 0) == hc
            &&& (e.at)(Buf::HcSplit, 0) == input[0]
            &&& (e.at)(Buf::AttnNorm, 0) == input[2]
            &&& (e.at)(Buf::Q, 0) == query(k, il, pos as int, input[2])
            &&& (e.at)(Buf::RawCache(il), 0) == crate::session::forward::window_with(
                k,
                pos as int,
                (m.at)(Buf::RawCache(il), 0),
                crate::session::forward::key(k, il, pos as int, input[2]),
            )
            &&& attn_state(e, il) == attn_state(m, il)
            &&& index_state(e, il) == index_state(m, il)
            &&& has_indexer(w, il as int) ==> {
                &&& (e.at)(Buf::IndexerQ, 0) == index_query(
                    k,
                    il,
                    pos as int,
                    input[1],
                    input[2],
                )[0]
                &&& (e.at)(Buf::IndexerWeights, 0) == index_query(
                    k,
                    il,
                    pos as int,
                    input[1],
                    input[2],
                )[1]
            }
        }),
{
    let a = hc_in_steps(attn_in(il));
    let b = qkv_steps(il, pos);
    let c = index_query_steps(w, il, pos);
    let hc = (m.at)(Buf::CurHc, 0);
    let input = block_input(k, il, attention_slots(), hc);
    let m1 = run(k, p, m, a);
    let m2 = run(k, p, m1, b);
    let m3 = run(k, p, m2, c);
    run_concat(k, p, m, a, b);
    run_concat(k, p, m, a + b, c);
    attn_input_computes(k, p, m, il);
    qkv_computes(k, p, m1, il, pos);
    let own = layer_bufs(il).remove(Buf::RawCache(il));
    assert(own.contains(Buf::AttnCompCache(il)) && own.contains(Buf::AttnStateKv(il))
        && own.contains(Buf::AttnStateScore(il)) && own.contains(Buf::IndexCompCache(il))
        && own.contains(Buf::IndexStateKv(il)) && own.contains(Buf::IndexStateScore(il)));
    let s1 = own.insert(Buf::CurHc).insert(Buf::RawCache(il));
    leave_all(k, p, m, a, s1);
    let s2 = own.insert(Buf::CurHc).insert(Buf::HcSplit).insert(Buf::AttnCur).insert(Buf::AttnNorm);
    leave_all(k, p, m1, b, s2);
    let s3 = s2.insert(Buf::Q).insert(Buf::RawCache(il));
    leave_all(k, p, m2, c, s3);
    assert(s1.contains(Buf::CurHc) && s1.contains(Buf::RawCache(il)));
    assert(s2.contains(Buf::CurHc) && s2.contains(Buf::HcSplit) && s2.contains(Buf::AttnCur)
        && s2.contains(Buf::AttnNorm));
    assert(s3.contains(Buf::CurHc) && s3.contains(Buf::HcSplit) && s3.contains(Buf::AttnNorm)
        && s3.contains(Buf::Q) && s3.contains(Buf::RawCache(il)));
    assert forall|x: Buf| #[trigger] own.contains(x) implies (m3.at)(x, 0) == (m.at)(x, 0) by {
        assert(s1.contains(x) && s2.contains(x) && s3.contains(x));
    }
    if has_indexer(w, il as int) {
        index_query_computes(k, p, m2, w, il, pos, input[2]);
    }
}

/// What a layer keeps after a token, and what attention reads of it.
proof fn heads_are_ready<V>(
    k: spec_fn(Step, int, Seq<V>) -> V,
    p: Seq<i32>,
    m: Memory<V>,
    w: ModelWeights,
    il: usize,
    pos: u32,
    row: u32,
    cap: int,
)
    ensures
        ({
            let e = run(k, p, m, head_steps(w, il, pos, row, cap));
            let hc = (m.at)(Buf::CurHc, 0);
            let input = block_input(k, il, attention_slots(), hc);
            &&& (e.at)(Buf::CurHc, 0) == hc
            &&& (e.at)(Buf::HcSplit, 0) == input[0]
            &&& (e.at)(Buf::Q, 0) == query(k, il, pos as int, input[2])
            &&& state_of(e, il) == state_after(
                k,
                w,
                il,
                pos as int,
                row,
                cap,
                hc,
                state_of(m, il),
            )
            &&& has_indexer(w, il as int) ==> {
                &&& (e.at)(Buf::IndexerQ, 0) == index_query(
                    k,
                    il,
                    pos as int,
                    input[1],
                    input[2],
                )[0]
                &&& (e.at)(Buf::IndexerWeights, 0) == index_query(
                    k,
                    il,
                    pos as int,
                    input[1],
                    input[2],
                )[1]
            }
        }),
{
    let a = hc_in_steps(attn_in(il)) + qkv_steps(il, pos) + index_query_steps(w, il, pos);
    let b = index_steps(w, il, pos, row, cap);
    let c = attn_steps(w, il, pos, row, cap);
    let m1 = run(k, p, m, a);
    let m2 = run(k, p, m1, b);
    let m3 = run(k, p, m2, c);
    run_concat(k, p, m, a, b);
    run_concat(k, p, m, a + b, c);
    inputs_compute(k, p, m, w, il, pos);
    index_compressor_computes(k, p, m1, w, il, pos, row, cap);
    attn_compressor_computes(k, p, m2, w, il, pos, row, cap);
    let both = set![
        Buf::CurHc,
        Buf::HcSplit,
        Buf::AttnNorm,
        Buf::Q,
        Buf::IndexerQ,
        Buf::IndexerWeights,
        Buf::RawCache(il),
    ];
    let s1 = both.insert(Buf::AttnCompCache(il)).insert(Buf::AttnStateKv(il)).insert(
        Buf::AttnStateScore(il),
    );
    let s2 = both.insert(Buf::IndexCompCache(il)).insert(Buf::IndexStateKv(il)).insert(
        Buf::IndexStateScore(il),
    );
    assert forall|x: Buf| #[trigger] s1.contains(x) implies untouched(b, x) by {
        index_steps_leave(w, il, pos, row, cap, x);
    }
    assert forall|x: Buf| #[trigger] s2.contains(x) implies untouched(c, x) by {
        attn_steps_leave(w, il, pos, row, cap, x);
    }
    leave_all(k, p, m1, b, s1);
    leave_all(k, p, m2, c, s2);
    assert forall|x: Buf| #[trigger] both.contains(x) implies (m3.at)(x, 0) == (m1.at)(x, 0) by {
        assert(s1.contains(x) && s2.contains(x));
    }
    assert(both.contains(Buf::CurHc) && both.contains(Buf::HcSplit) && both.contains(Buf::Q)
        && both.contains(Buf::IndexerQ) && both.contains(Buf::IndexerWeights) && both.contains(
        Buf::RawCache(il),
    ));
    assert(s1.contains(Buf::AttnNorm));
    assert(s1.contains(Buf::AttnCompCache(il)) && s1.contains(Buf::AttnStateKv(il))
        && s1.contains(Buf::AttnStateScore(il)));
    assert(s2.contains(Buf::IndexCompCache(il)) && s2.contains(Buf::IndexStateKv(il))
        && s2.contains(Buf::IndexStateScore(il)));
    assert(attn_state(m2, il) == attn_state(m1, il));
    assert(index_state(m3, il) == index_state(m2, il));
}

/// The choice of experts.
proof fn router_computes<V>(
    k: spec_fn(Step, int, Seq<V>) -> V,
    p: Seq<i32>,
    m: Memory<V>,
    w: ModelWeights,
    il: usize,
    token: i32,
)
    ensures
        ({
            let e = run(k, p, m, router_steps(w, il, token));
            let x = (m.at)(Buf::FfnNorm, 0);
            &&& (e.at)(Buf::FfnNorm, 0) == x
            &&& (e.at)(Buf::RouterSelected, 0) == chosen(k, w, il, token, x, 1)
            &&& (e.at)(Buf::RouterWeights, 0) == chosen(k, w, il, token, x, 2)
        }),
{
    let all = router_steps(w, il, token);
    let n = all.len() - 1;
    let front = all.drop_last();
    let last = all[n];
    let x = (m.at)(Buf::FfnNorm, 0);
    let t = |s: LayerSlot| Weight::Layer(il, s);
    let need = Step::Need(t(LayerSlot::FfnGateInp));
    let project = Step::MatmulF16 {
        w: t(LayerSlot::FfnGateInp),
        x: Buf::FfnNorm,
        out: Buf::RouterLogits,
        in_dim: 4096,
        out_dim: 256,
        n_tok: 1,
    };
    let two = seq![need, project];
    let more = front.skip(2);
    assert(front =~= two + more);
    assert(all =~= front.push(last));
    run_push(k, p, m, front, last);
    run_concat(k, p, m, two, more);
    run_push(k, p, m, Seq::empty(), need);
    run_push(k, p, m, seq![need], project);
    assert(two =~= seq![need].push(project));
    let m1 = exec(k, p, m, need);
    let m2 = exec(k, p, m1, project);
    kernel_writes(k, p, m, need);
    kernel_writes(k, p, m1, project);
    let m3 = run(k, p, m2, more);
    assert(untouched(more, Buf::RouterLogits));
    assert(untouched(more, Buf::FfnNorm));
    run_leaves(k, p, m2, more, Buf::RouterLogits, 0);
    run_leaves(k, p, m2, more, Buf::FfnNorm, 0);
    kernel_writes(k, p, m3, last);
    assert(args(m3, last, 0) =~= seq![(m3.at)(Buf::RouterLogits, 0)]);
}

/// The mixture of experts.
proof fn moe_computes<V>(
    k: spec_fn(Step, int, Seq<V>) -> V,
    p: Seq<i32>,
    m: Memory<V>,
    w: ModelWeights,
    il: usize,
    token: i32,
)
    requires
        holds(w, il as int, LayerSlot::FfnGateInp),
    ensures
        (run(k, p, m, moe_steps(w, il, token)).at)(Buf::RoutedOut, 0) == routed_experts(
            k,
            w,
            il,
            token,
            (m.at)(Buf::FfnNorm, 0),
        ),
{
    let m1 = run(k, p, m, router_steps(w, il, token));
    run_concat(k, p, m, router_steps(w, il, token), expert_steps(il));
    router_computes(k, p, m, w, il, token);
    experts_compute(k, p, m1, w, il, token);
}

/// The end of a layer: the experts are mixed into the streams.
proof fn merge_computes<V>(
    k: spec_fn(Step, int, Seq<V>) -> V,
    p: Seq<i32>,
    m: Memory<V>,
    w: ModelWeights,
    il: usize,
)
    ensures
        ({
            let b = Buf::NoTokens;
            let routes = holds(w, il as int, LayerSlot::FfnGateInp);
            let shared = seq![
                (m.at)(Buf::SharedOut, 0),
                (m.at)(Buf::AfterAttnHc, 0),
                (m.at)(Buf::HcSplit, 0),
            ];
            (run(k, p, m, merge_steps(w, il)).at)(Buf::CurHc, 0) == k(
                Step::HcExpand {
                    block: b,
                    add: b,
                    residual: b,
                    split: b,
                    out: b,
                    has_add: routes,
                },
                0,
                if routes {
                    shared.push((m.at)(Buf::RoutedOut, 0))
                } else {
                    shared
                },
            )
        }),
{
    let x = merge_steps(w, il);
    run_push(k, p, m, Seq::empty(), x[0]);
    run_push(k, p, m, seq![x[0]], x[1]);
    assert(x =~= seq![x[0]].push(x[1]));
    kernel_writes(k, p, m, x[0]);
    reveal(exec);
}

/// What follows attention in a layer.
pub(crate) proof fn rest_computes<V>(
    k: spec_fn(Step, int, Seq<V>) -> V,
    p: Seq<i32>,
    m: Memory<V>,
    w: ModelWeights,
    il: usize,
    pos: u32,
    token: i32,
)
    requires
        holds(w, il as int, LayerSlot::FfnGateShexp),
    ensures
        (run(k, p, m, out_and_ffn_steps(w, il, pos, token)).at)(Buf::CurHc, 0) == feed_forward(
            k,
            w,
            il,
            token,
            attention_output(
                k,
                il,
                pos as int,
                (m.at)(Buf::CurHc, 0),
                (m.at)(Buf::HcSplit, 0),
                (m.at)(Buf::Heads, 0),
            ),
        ),
{
    let y1 = attn_out_steps(il, pos);
    let y2 = hc_in_steps(ffn_in(il));
    let y3 = shared_steps(w, il);
    let y4 = moe_steps(w, il, token);
    let y5 = merge_steps(w, il);
    let m1 = run(k, p, m, y1);
    let m2 = run(k, p, m1, y2);
    let m3 = run(k, p, m2, y3);
    let m4 = run(k, p, m3, y4);
    run_concat(k, p, m, y1, y2);
    run_concat(k, p, m, y1 + y2, y3);
    run_concat(k, p, m, y1 + y2 + y3, y4);
    run_concat(k, p, m, y1 + y2 + y3 + y4, y5);
    attn_out_computes(k, p, m, il, pos);
    ffn_input_computes(k, p, m1, il);
    shared_computes(k, p, m2, w, il);
    let hc = (m1.at)(Buf::AfterAttnHc, 0);
    let input = block_input(k, il, feed_forward_slots(), hc);
    assert(untouched(y2, Buf::AfterAttnHc));
    run_leaves(k, p, m1, y2, Buf::AfterAttnHc, 0);
    let s3 = set![Buf::AfterAttnHc, Buf::HcSplit, Buf::FfnNorm];
    leave_all(k, p, m2, y3, s3);
    assert(s3.contains(Buf::AfterAttnHc) && s3.contains(Buf::HcSplit) && s3.contains(
        Buf::FfnNorm,
    ));
    let s4 = set![Buf::AfterAttnHc, Buf::HcSplit, Buf::SharedOut];
    assert forall|b: Buf| #[trigger] s4.contains(b) implies untouched(y4, b) by {
        untouched_concat(router_steps(w, il, token), expert_steps(il), b);
    }
    leave_all(k, p, m3, y4, s4);
    assert(s4.contains(Buf::AfterAttnHc) && s4.contains(Buf::HcSplit) && s4.contains(
        Buf::SharedOut,
    ));
    if holds(w, il as int, LayerSlot::FfnGateInp) {
        moe_computes(k, p, m3, w, il, token);
    }
    merge_computes(k, p, m4, w, il);
}

/// A token leaves a layer with the streams, and the layer keeps the state, that follow from the
/// streams with which the token entered it and the state that the layer kept.
pub proof fn layers_compute<V>(
    k: spec_fn(Step, int, Seq<V>) -> V,
    p: Seq<i32>,
    m: Memory<V>,
    w: ModelWeights,
    il: usize,
    pos: u32,
    token: i32,
    row: u32,
    cap: int,
)
    requires
        holds(w, il as int, LayerSlot::FfnGateShexp),
    ensures
        ({
            let e = run(k, p, m, layer_steps(w, il, pos, token, row, cap));
            let hc = (m.at)(Buf::CurHc, 0);
            let s = state_after(k, w, il, pos as int, row, cap, hc, state_of(m, il));
            &&& state_of(e, il) == s
            &&& (e.at)(Buf::CurHc, 0) == streams_after(
                k,
                w,
                il,
                pos as int,
                token,
                rows_seen(w, il, pos as int, row, cap),
                hc,
                s,
            )
        }),
{
    let after = next_row(w, il as int, pos as int, row, cap);
    let head = head_steps(w, il, pos, row, cap);
    let att = attention_steps(w, il, pos, after);
    let rest = out_and_ffn_steps(w, il, pos, token);
    let m1 = run(k, p, m, head);
    let m2 = run(k, p, m1, att);
    let m3 = run(k, p, m2, rest);
    run_concat(k, p, m, head, att);
    run_concat(k, p, m, head + att, rest);
    heads_are_ready(k, p, m, w, il, pos, row, cap);
    let input = block_input(k, il, attention_slots(), (m.at)(Buf::CurHc, 0));
    let iq = index_query(k, il, pos as int, input[1], input[2]);
    if has_indexer(w, il as int) && seen_rows(il as int, after) > 512 {
        indexed_attention_computes(k, p, m1, w, il, pos, after, iq);
    } else {
        mixed_attention_computes(k, p, m1, w, il, pos, after, iq);
    }
    let s = layer_bufs(il).insert(Buf::CurHc).insert(Buf::HcSplit);
    leave_all(k, p, m1, att, s);
    assert(s.contains(Buf::CurHc) && s.contains(Buf::HcSplit));
    rest_computes(k, p, m2, w, il, pos, token);
    assert forall|b: Buf| #[trigger] layer_bufs(il).contains(b) implies (m3.at)(b, 0) == (m1.at)(
        b,
        0,
    ) by {
        assert(s.contains(b));
        rest_leaves(w, il, pos, token, b);
        run_leaves(k, p, m2, rest, b, 0);
    }
    let own = layer_bufs(il);
    assert(own.contains(Buf::RawCache(il)) && own.contains(Buf::AttnCompCache(il))
        && own.contains(Buf::AttnStateKv(il)) && own.contains(Buf::AttnStateScore(il))
        && own.contains(Buf::IndexCompCache(il)) && own.contains(Buf::IndexStateKv(il))
        && own.contains(Buf::IndexStateScore(il)));
    assert(state_of(m3, il) == state_of(m1, il));
}

/// What follows attention writes no buffer that lasts.
pub(crate) proof fn rest_leaves(w: ModelWeights, il: usize, pos: u32, token: i32, b: Buf)
    requires
        lasting(b),
    ensures
        untouched(out_and_ffn_steps(w, il, pos, token), b),
{
    let y1 = attn_out_steps(il, pos);
    let y2 = hc_in_steps(ffn_in(il));
    let y3 = shared_steps(w, il);
    let y4 = moe_steps(w, il, token);
    untouched_concat(router_steps(w, il, token), expert_steps(il), b);
    untouched_concat(y1, y2, b);
    untouched_concat(y1 + y2, y3, b);
    untouched_concat(y1 + y2 + y3, y4, b);
    untouched_concat(y1 + y2 + y3 + y4, merge_steps(w, il), b);
}

/// A layer whose file has no shared expert mixes into the streams what the buffer of the shared
/// expert holds from before, with the routed experts if there are any, and leaves that buffer.
pub proof fn without_a_shared_expert_its_buffer_is_mixed<V>(
    k: spec_fn(Step, int, Seq<V>) -> V,
    p: Seq<i32>,
    m: Memory<V>,
    w: ModelWeights,
    il: usize,
    pos: u32,
    token: i32,
)
    requires
        !holds(w, il as int, LayerSlot::FfnGateShexp),
    ensures
        ({
            let e = run(k, p, m, out_and_ffn_steps(w, il, pos, token));
            let b = Buf::NoTokens;
            let hc = attention_output(
                k,
                il,
                pos as int,
                (m.at)(Buf::CurHc, 0),
                (m.at)(Buf::HcSplit, 0),
                (m.at)(Buf::Heads, 0),
            );
            let input = block_input(k, il, feed_forward_slots(), hc);
            let routes = holds(w, il as int, LayerSlot::FfnGateInp);
            let held = seq![(m.at)(Buf::SharedOut, 0), hc, input[0]];
            &&& (e.at)(Buf::CurHc, 0) == k(
                Step::HcExpand {
                    block: b,
                    add: b,
                    residual: b,
                    split: b,
                    out: b,
                    has_add: routes,
                },
                0,
                if routes {
                    held.push(routed_experts(k, w, il, token, input[2]))
                } else {
                    held
                },
            )
            &&& (e.at)(Buf::SharedOut, 0) == (m.at)(Buf::SharedOut, 0)
        }),
{
    let y1 = attn_out_steps(il, pos);
    let y2 = hc_in_steps(ffn_in(il));
    let y3 = shared_steps(w, il);
    let y4 = moe_steps(w, il, token);
    let y5 = merge_steps(w, il);
    let m1 = run(k, p, m, y1);
    let m2 = run(k, p, m1, y2);
    let m3 = run(k, p, m2, y3);
    let m4 = run(k, p, m3, y4);
    run_concat(k, p, m, y1, y2);
    run_concat(k, p, m, y1 + y2, y3);
    run_concat(k, p, m, y1 + y2 + y3, y4);
    run_concat(k, p, m, y1 + y2 + y3 + y4, y5);
    attn_out_computes(k, p, m, il, pos);
    ffn_input_computes(k, p, m1, il);
    assert(untouched(y1, Buf::SharedOut));
    run_leaves(k, p, m, y1, Buf::SharedOut, 0);
    assert(untouched(y2, Buf::SharedOut));
    run_leaves(k, p, m1, y2, Buf::SharedOut, 0);
    assert(untouched(y2, Buf::AfterAttnHc));
    run_leaves(k, p, m1, y2, Buf::AfterAttnHc, 0);
    let s = set![Buf::AfterAttnHc, Buf::HcSplit, Buf::FfnNorm, Buf::SharedOut];
    leave_all(k, p, m2, y3, s);
    assert(s.contains(Buf::AfterAttnHc) && s.contains(Buf::HcSplit) && s.contains(Buf::FfnNorm)
        && s.contains(Buf::SharedOut));
    let s4 = set![Buf::AfterAttnHc, Buf::HcSplit, Buf::SharedOut];
    assert forall|b: Buf| #[trigger] s4.contains(b) implies untouched(y4, b) by {
        untouched_concat(router_steps(w, il, token), expert_steps(il), b);
    }
    leave_all(k, p, m3, y4, s4);
    assert(s4.contains(Buf::AfterAttnHc) && s4.contains(Buf::HcSplit) && s4.contains(
        Buf::SharedOut,
    ));
    if holds(w, il as int, LayerSlot::FfnGateInp) {
        moe_computes(k, p, m3, w, il, token);
    }
    merge_computes(k, p, m4, w, il);
    assert(untouched(y5, Buf::SharedOut));
    run_leaves(k, p, m4, y5, Buf::SharedOut, 0);
}

} // verus!
