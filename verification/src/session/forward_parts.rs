//! What the parts of a plan compute.
use vstd::prelude::*;

use crate::model::{LayerSlot, ModelWeights};
use crate::session::compressor::{
    attn_compressor, emit_steps, index_compressor, project_steps, shift_steps,
};
use crate::session::decode::{embed_steps, output_steps};
use crate::session::forward::{
    attention, attention_output, attention_rows, attention_slots, block_input, chosen, embedding,
    feed_forward_slots, index_query, index_rows, key, logits_of, low_rank, q8, query,
    routed_experts, shared_expert, state_with, window_with, with_window_row, Compressed,
};
use crate::session::layer::{
    attention_steps, attn_in, attn_out_steps, expert_steps, ffn_in, has_indexer, hc_in_steps,
    index_query_steps, qkv_steps, seen_rows, shared_steps,
};
use crate::session::meaning::{args, exec, kernel, lines, output, run, Memory};
use crate::session::state::holds;
use crate::session::step::{ratio_of, Buf, Step};
use crate::session::widen::heads_steps;

verus! {

/// The memory after the steps from the one with index `i` on.
pub open spec fn run_from<V>(
    k: spec_fn(Step, int, Seq<V>) -> V,
    p: Seq<i32>,
    m: Memory<V>,
    steps: Seq<Step>,
    i: int,
) -> Memory<V>
    decreases steps.len() - i,
{
    if i < steps.len() {
        run_from(k, p, exec(k, p, m, steps[i]), steps, i + 1)
    } else {
        m
    }
}

proof fn run_is_run_from<V>(
    k: spec_fn(Step, int, Seq<V>) -> V,
    p: Seq<i32>,
    m: Memory<V>,
    steps: Seq<Step>,
    i: int,
)
    requires
        0 <= i <= steps.len(),
    ensures
        run(k, p, m, steps) == run_from(k, p, run(k, p, m, steps.take(i)), steps, i),
    decreases steps.len() - i,
{
    reveal(run);
    if i < steps.len() {
        assert(steps.take(i + 1).drop_last() =~= steps.take(i));
        run_is_run_from(k, p, m, steps, i + 1);
    } else {
        assert(steps.take(i) =~= steps);
    }
}

/// A list of steps, from its first step on.
pub(crate) proof fn runs_from_the_first<V>(
    k: spec_fn(Step, int, Seq<V>) -> V,
    p: Seq<i32>,
    m: Memory<V>,
    steps: Seq<Step>,
)
    ensures
        run(k, p, m, steps) == run_from(k, p, m, steps, 0),
{
    reveal(run);
    assert(steps.take(0) =~= Seq::empty());
    run_is_run_from(k, p, m, steps, 0);
}

/// A kernel that runs once writes its results, and leaves the other buffers alone.
pub(crate) proof fn kernel_writes<V>(
    k: spec_fn(Step, int, Seq<V>) -> V,
    p: Seq<i32>,
    m: Memory<V>,
    step: Step,
)
    requires
        lines(step) == 1,
        !(step is UploadTokens),
        !(step is CopyRow),
        !(step is Swap),
    ensures
        forall|b: Buf|
            output(step, b) is None ==> #[trigger] (exec(k, p, m, step).at)(b, 0) == (m.at)(b, 0),
        forall|b: Buf|
            output(step, b) is Some ==> #[trigger] (exec(k, p, m, step).at)(b, 0) == k(
                kernel(step, m.tokens, 0),
                output(step, b)->0,
                args(m, step, 0),
            ),
{
    reveal(exec);
}

/// The output, from the residual streams to the logits.
pub(crate) proof fn output_computes<V>(
    k: spec_fn(Step, int, Seq<V>) -> V,
    p: Seq<i32>,
    m: Memory<V>,
)
    ensures
        ({
            let e = run(k, p, m, output_steps());
            &&& (e.at)(Buf::Logits, 0) == logits_of(k, (m.at)(Buf::CurHc, 0))
        }),
{
    let x = output_steps();
    runs_from_the_first(k, p, m, x);
    reveal_with_fuel(run_from, 13);
    kernel_writes(k, p, m, x[0]);
    let m1 = exec(k, p, m, x[0]);
    kernel_writes(k, p, m1, x[1]);
    let m2 = exec(k, p, m1, x[1]);
    kernel_writes(k, p, m2, x[2]);
    let m3 = exec(k, p, m2, x[2]);
    kernel_writes(k, p, m3, x[3]);
    let m4 = exec(k, p, m3, x[3]);
    kernel_writes(k, p, m4, x[4]);
    let m5 = exec(k, p, m4, x[4]);
    kernel_writes(k, p, m5, x[5]);
    let m6 = exec(k, p, m5, x[5]);
    kernel_writes(k, p, m6, x[6]);
    let m7 = exec(k, p, m6, x[6]);
    kernel_writes(k, p, m7, x[7]);
    let m8 = exec(k, p, m7, x[7]);
    kernel_writes(k, p, m8, x[8]);
    let m9 = exec(k, p, m8, x[8]);
    kernel_writes(k, p, m9, x[9]);
    let m10 = exec(k, p, m9, x[9]);
    kernel_writes(k, p, m10, x[10]);
    let m11 = exec(k, p, m10, x[10]);
    kernel_writes(k, p, m11, x[11]);
}

/// The embedding of a token.
pub(crate) proof fn embed_computes<V>(
    k: spec_fn(Step, int, Seq<V>) -> V,
    p: Seq<i32>,
    m: Memory<V>,
    token: i32,
)
    ensures
        ({
            let e = run(k, p, m, embed_steps(token));
            &&& (e.at)(Buf::CurHc, 0) == embedding(k, token)
        }),
{
    let x = embed_steps(token);
    runs_from_the_first(k, p, m, x);
    reveal_with_fuel(run_from, 3);
    kernel_writes(k, p, m, x[0]);
    let m1 = exec(k, p, m, x[0]);
    kernel_writes(k, p, m1, x[1]);
}

/// The input of a block.
pub(crate) proof fn attn_input_computes<V>(
    k: spec_fn(Step, int, Seq<V>) -> V,
    p: Seq<i32>,
    m: Memory<V>,
    il: usize,
)
    ensures
        ({
            let e = run(k, p, m, hc_in_steps(attn_in(il)));
            &&& (e.at)(Buf::HcSplit, 0) == block_input(
                k,
                il,
                attention_slots(),
                (m.at)(Buf::CurHc, 0),
            )[0]
            &&& (e.at)(Buf::AttnCur, 0) == block_input(
                k,
                il,
                attention_slots(),
                (m.at)(Buf::CurHc, 0),
            )[1]
            &&& (e.at)(Buf::AttnNorm, 0) == block_input(
                k,
                il,
                attention_slots(),
                (m.at)(Buf::CurHc, 0),
            )[2]
        }),
{
    let x = hc_in_steps(attn_in(il));
    runs_from_the_first(k, p, m, x);
    reveal_with_fuel(run_from, 8);
    kernel_writes(k, p, m, x[0]);
    let m1 = exec(k, p, m, x[0]);
    kernel_writes(k, p, m1, x[1]);
    let m2 = exec(k, p, m1, x[1]);
    kernel_writes(k, p, m2, x[2]);
    let m3 = exec(k, p, m2, x[2]);
    kernel_writes(k, p, m3, x[3]);
    let m4 = exec(k, p, m3, x[3]);
    kernel_writes(k, p, m4, x[4]);
    let m5 = exec(k, p, m4, x[4]);
    kernel_writes(k, p, m5, x[5]);
    let m6 = exec(k, p, m5, x[5]);
    kernel_writes(k, p, m6, x[6]);
}

/// The input of a block.
pub(crate) proof fn ffn_input_computes<V>(
    k: spec_fn(Step, int, Seq<V>) -> V,
    p: Seq<i32>,
    m: Memory<V>,
    il: usize,
)
    ensures
        ({
            let e = run(k, p, m, hc_in_steps(ffn_in(il)));
            &&& (e.at)(Buf::HcSplit, 0) == block_input(
                k,
                il,
                feed_forward_slots(),
                (m.at)(Buf::AfterAttnHc, 0),
            )[0]
            &&& (e.at)(Buf::FfnCur, 0) == block_input(
                k,
                il,
                feed_forward_slots(),
                (m.at)(Buf::AfterAttnHc, 0),
            )[1]
            &&& (e.at)(Buf::FfnNorm, 0) == block_input(
                k,
                il,
                feed_forward_slots(),
                (m.at)(Buf::AfterAttnHc, 0),
            )[2]
        }),
{
    let x = hc_in_steps(ffn_in(il));
    runs_from_the_first(k, p, m, x);
    reveal_with_fuel(run_from, 8);
    kernel_writes(k, p, m, x[0]);
    let m1 = exec(k, p, m, x[0]);
    kernel_writes(k, p, m1, x[1]);
    let m2 = exec(k, p, m1, x[1]);
    kernel_writes(k, p, m2, x[2]);
    let m3 = exec(k, p, m2, x[2]);
    kernel_writes(k, p, m3, x[3]);
    let m4 = exec(k, p, m3, x[3]);
    kernel_writes(k, p, m4, x[4]);
    let m5 = exec(k, p, m4, x[4]);
    kernel_writes(k, p, m5, x[5]);
    let m6 = exec(k, p, m5, x[5]);
    kernel_writes(k, p, m6, x[6]);
}

/// Query and key of a token, and the window with the key.
pub(crate) proof fn qkv_computes<V>(
    k: spec_fn(Step, int, Seq<V>) -> V,
    p: Seq<i32>,
    m: Memory<V>,
    il: usize,
    pos: u32,
)
    ensures
        ({
            let e = run(k, p, m, qkv_steps(il, pos));
            &&& (e.at)(Buf::QrNorm, 0) == low_rank(k, il, (m.at)(Buf::AttnNorm, 0))[0]
            &&& (e.at)(Buf::Q, 0) == query(k, il, pos as int, (m.at)(Buf::AttnNorm, 0))
            &&& (e.at)(Buf::RawCache(il), 0) == window_with(
                k,
                pos as int,
                (m.at)(Buf::RawCache(il), 0),
                key(k, il, pos as int, (m.at)(Buf::AttnNorm, 0)),
            )
        }),
{
    let x = qkv_steps(il, pos);
    runs_from_the_first(k, p, m, x);
    reveal_with_fuel(run_from, 16);
    kernel_writes(k, p, m, x[0]);
    let m1 = exec(k, p, m, x[0]);
    kernel_writes(k, p, m1, x[1]);
    let m2 = exec(k, p, m1, x[1]);
    kernel_writes(k, p, m2, x[2]);
    let m3 = exec(k, p, m2, x[2]);
    kernel_writes(k, p, m3, x[3]);
    let m4 = exec(k, p, m3, x[3]);
    kernel_writes(k, p, m4, x[4]);
    let m5 = exec(k, p, m4, x[4]);
    kernel_writes(k, p, m5, x[5]);
    let m6 = exec(k, p, m5, x[5]);
    kernel_writes(k, p, m6, x[6]);
    let m7 = exec(k, p, m6, x[6]);
    kernel_writes(k, p, m7, x[7]);
    let m8 = exec(k, p, m7, x[7]);
    kernel_writes(k, p, m8, x[8]);
    let m9 = exec(k, p, m8, x[8]);
    kernel_writes(k, p, m9, x[9]);
    let m10 = exec(k, p, m9, x[9]);
    kernel_writes(k, p, m10, x[10]);
    let m11 = exec(k, p, m10, x[10]);
    kernel_writes(k, p, m11, x[11]);
    let m12 = exec(k, p, m11, x[11]);
    kernel_writes(k, p, m12, x[12]);
    let m13 = exec(k, p, m12, x[12]);
    kernel_writes(k, p, m13, x[13]);
    let m14 = exec(k, p, m13, x[13]);
    kernel_writes(k, p, m14, x[14]);
    assert(args(m14, x[14], 0) =~= seq![
        (m14.at)(Buf::RawCache(il), 0),
        (m14.at)(Buf::Kv, 0),
    ]);
}

/// The query of the indexer.
pub(crate) proof fn index_query_computes<V>(
    k: spec_fn(Step, int, Seq<V>) -> V,
    p: Seq<i32>,
    m: Memory<V>,
    w: ModelWeights,
    il: usize,
    pos: u32,
    x: V,
)
    requires
        has_indexer(w, il as int),
        (m.at)(Buf::QrNorm, 0) == low_rank(k, il, x)[0],
    ensures
        ({
            let e = run(k, p, m, index_query_steps(w, il, pos));
            &&& (e.at)(Buf::IndexerQ, 0) == index_query(
                k,
                il,
                pos as int,
                (m.at)(Buf::AttnCur, 0),
                x,
            )[0]
            &&& (e.at)(Buf::IndexerWeights, 0) == index_query(
                k,
                il,
                pos as int,
                (m.at)(Buf::AttnCur, 0),
                x,
            )[1]
        }),
{
    let x = index_query_steps(w, il, pos);
    runs_from_the_first(k, p, m, x);
    reveal_with_fuel(run_from, 6);
    kernel_writes(k, p, m, x[0]);
    let m1 = exec(k, p, m, x[0]);
    kernel_writes(k, p, m1, x[1]);
    let m2 = exec(k, p, m1, x[1]);
    kernel_writes(k, p, m2, x[2]);
    let m3 = exec(k, p, m2, x[2]);
    kernel_writes(k, p, m3, x[3]);
    let m4 = exec(k, p, m3, x[3]);
    kernel_writes(k, p, m4, x[4]);
}

/// What the memory holds of the attention compressor of a layer.
pub open spec fn attn_state<V>(m: Memory<V>, il: usize) -> Compressed<V> {
    Compressed {
        cache: (m.at)(Buf::AttnCompCache(il), 0),
        keys: (m.at)(Buf::AttnStateKv(il), 0),
        scores: (m.at)(Buf::AttnStateScore(il), 0),
    }
}

/// The compressor takes up a token.
pub(crate) proof fn attn_project_computes<V>(
    k: spec_fn(Step, int, Seq<V>) -> V,
    p: Seq<i32>,
    m: Memory<V>,
    il: usize,
    pos: u32,
)
    ensures
        ({
            let e = run(k, p, m, project_steps(attn_compressor(il), pos));
            &&& (e.at)(Buf::AttnCompCache(il), 0) == state_with(
                k,
                il,
                attention_rows(),
                pos as int,
                (m.at)(Buf::AttnNorm, 0),
                attn_state(m, il),
            ).cache
            &&& (e.at)(Buf::AttnStateKv(il), 0) == state_with(
                k,
                il,
                attention_rows(),
                pos as int,
                (m.at)(Buf::AttnNorm, 0),
                attn_state(m, il),
            ).keys
            &&& (e.at)(Buf::AttnStateScore(il), 0) == state_with(
                k,
                il,
                attention_rows(),
                pos as int,
                (m.at)(Buf::AttnNorm, 0),
                attn_state(m, il),
            ).scores
        }),
{
    let x = project_steps(attn_compressor(il), pos);
    runs_from_the_first(k, p, m, x);
    reveal_with_fuel(run_from, 7);
    kernel_writes(k, p, m, x[0]);
    let m1 = exec(k, p, m, x[0]);
    kernel_writes(k, p, m1, x[1]);
    let m2 = exec(k, p, m1, x[1]);
    kernel_writes(k, p, m2, x[2]);
    let m3 = exec(k, p, m2, x[2]);
    kernel_writes(k, p, m3, x[3]);
    let m4 = exec(k, p, m3, x[3]);
    kernel_writes(k, p, m4, x[4]);
    let m5 = exec(k, p, m4, x[4]);
    kernel_writes(k, p, m5, x[5]);
}

/// The compressor writes the row of a window.
pub(crate) proof fn attn_emit_computes<V>(
    k: spec_fn(Step, int, Seq<V>) -> V,
    p: Seq<i32>,
    m: Memory<V>,
    il: usize,
    pos: u32,
    row: u32,
)
    requires
        ratio_of(il as int) == 4,
        (pos + 1) % ratio_of(il as int) as int == 0,
    ensures
        ({
            let e = run(
                k,
                p,
                m,
                emit_steps(attn_compressor(il), pos, row) + shift_steps(attn_compressor(il)),
            );
            &&& (e.at)(Buf::AttnCompCache(il), 0) == with_window_row(
                k,
                il,
                attention_rows(),
                pos as int,
                row as int,
                attn_state(m, il),
            ).cache
            &&& (e.at)(Buf::AttnStateKv(il), 0) == with_window_row(
                k,
                il,
                attention_rows(),
                pos as int,
                row as int,
                attn_state(m, il),
            ).keys
            &&& (e.at)(Buf::AttnStateScore(il), 0) == with_window_row(
                k,
                il,
                attention_rows(),
                pos as int,
                row as int,
                attn_state(m, il),
            ).scores
        }),
{
    let x = emit_steps(attn_compressor(il), pos, row) + shift_steps(attn_compressor(il));
    runs_from_the_first(k, p, m, x);
    reveal_with_fuel(run_from, 8);
    assert(pos + 1 - 4 == pos - pos % 4);
    kernel_writes(k, p, m, x[0]);
    let m1 = exec(k, p, m, x[0]);
    kernel_writes(k, p, m1, x[1]);
    let m2 = exec(k, p, m1, x[1]);
    kernel_writes(k, p, m2, x[2]);
    let m3 = exec(k, p, m2, x[2]);
    kernel_writes(k, p, m3, x[3]);
    let m4 = exec(k, p, m3, x[3]);
    kernel_writes(k, p, m4, x[4]);
    let m5 = exec(k, p, m4, x[4]);
    kernel_writes(k, p, m5, x[5]);
    let m6 = exec(k, p, m5, x[5]);
    kernel_writes(k, p, m6, x[6]);
}

/// The compressor writes the row of a window, where rows do not overlap.
pub(crate) proof fn attn_emit_computes_alone<V>(
    k: spec_fn(Step, int, Seq<V>) -> V,
    p: Seq<i32>,
    m: Memory<V>,
    il: usize,
    pos: u32,
    row: u32,
)
    requires
        ratio_of(il as int) == 128,
        (pos + 1) % ratio_of(il as int) as int == 0,
    ensures
        ({
            let e = run(k, p, m, emit_steps(attn_compressor(il), pos, row));
            &&& (e.at)(Buf::AttnCompCache(il), 0) == with_window_row(
                k,
                il,
                attention_rows(),
                pos as int,
                row as int,
                attn_state(m, il),
            ).cache
            &&& (e.at)(Buf::AttnStateKv(il), 0) == with_window_row(
                k,
                il,
                attention_rows(),
                pos as int,
                row as int,
                attn_state(m, il),
            ).keys
            &&& (e.at)(Buf::AttnStateScore(il), 0) == with_window_row(
                k,
                il,
                attention_rows(),
                pos as int,
                row as int,
                attn_state(m, il),
            ).scores
        }),
{
    let x = emit_steps(attn_compressor(il), pos, row);
    runs_from_the_first(k, p, m, x);
    reveal_with_fuel(run_from, 7);
    assert(pos + 1 - 128 == pos - pos % 128);
    kernel_writes(k, p, m, x[0]);
    let m1 = exec(k, p, m, x[0]);
    kernel_writes(k, p, m1, x[1]);
    let m2 = exec(k, p, m1, x[1]);
    kernel_writes(k, p, m2, x[2]);
    let m3 = exec(k, p, m2, x[2]);
    kernel_writes(k, p, m3, x[3]);
    let m4 = exec(k, p, m3, x[3]);
    kernel_writes(k, p, m4, x[4]);
    let m5 = exec(k, p, m4, x[4]);
    kernel_writes(k, p, m5, x[5]);
}

/// What the memory holds of the index compressor of a layer.
pub open spec fn index_state<V>(m: Memory<V>, il: usize) -> Compressed<V> {
    Compressed {
        cache: (m.at)(Buf::IndexCompCache(il), 0),
        keys: (m.at)(Buf::IndexStateKv(il), 0),
        scores: (m.at)(Buf::IndexStateScore(il), 0),
    }
}

/// The compressor takes up a token.
pub(crate) proof fn index_project_computes<V>(
    k: spec_fn(Step, int, Seq<V>) -> V,
    p: Seq<i32>,
    m: Memory<V>,
    il: usize,
    pos: u32,
)
    ensures
        ({
            let e = run(k, p, m, project_steps(index_compressor(il), pos));
            &&& (e.at)(Buf::IndexCompCache(il), 0) == state_with(
                k,
                il,
                index_rows(),
                pos as int,
                (m.at)(Buf::AttnNorm, 0),
                index_state(m, il),
            ).cache
            &&& (e.at)(Buf::IndexStateKv(il), 0) == state_with(
                k,
                il,
                index_rows(),
                pos as int,
                (m.at)(Buf::AttnNorm, 0),
                index_state(m, il),
            ).keys
            &&& (e.at)(Buf::IndexStateScore(il), 0) == state_with(
                k,
                il,
                index_rows(),
                pos as int,
                (m.at)(Buf::AttnNorm, 0),
                index_state(m, il),
            ).scores
        }),
{
    let x = project_steps(index_compressor(il), pos);
    runs_from_the_first(k, p, m, x);
    reveal_with_fuel(run_from, 7);
    kernel_writes(k, p, m, x[0]);
    let m1 = exec(k, p, m, x[0]);
    kernel_writes(k, p, m1, x[1]);
    let m2 = exec(k, p, m1, x[1]);
    kernel_writes(k, p, m2, x[2]);
    let m3 = exec(k, p, m2, x[2]);
    kernel_writes(k, p, m3, x[3]);
    let m4 = exec(k, p, m3, x[3]);
    kernel_writes(k, p, m4, x[4]);
    let m5 = exec(k, p, m4, x[4]);
    kernel_writes(k, p, m5, x[5]);
}

/// The compressor writes the row of a window.
pub(crate) proof fn index_emit_computes<V>(
    k: spec_fn(Step, int, Seq<V>) -> V,
    p: Seq<i32>,
    m: Memory<V>,
    il: usize,
    pos: u32,
    row: u32,
)
    requires
        ratio_of(il as int) == 4,
        (pos + 1) % ratio_of(il as int) as int == 0,
    ensures
        ({
            let e = run(
                k,
                p,
                m,
                emit_steps(index_compressor(il), pos, row) + shift_steps(index_compressor(il)),
            );
            &&& (e.at)(Buf::IndexCompCache(il), 0) == with_window_row(
                k,
                il,
                index_rows(),
                pos as int,
                row as int,
                index_state(m, il),
            ).cache
            &&& (e.at)(Buf::IndexStateKv(il), 0) == with_window_row(
                k,
                il,
                index_rows(),
                pos as int,
                row as int,
                index_state(m, il),
            ).keys
            &&& (e.at)(Buf::IndexStateScore(il), 0) == with_window_row(
                k,
                il,
                index_rows(),
                pos as int,
                row as int,
                index_state(m, il),
            ).scores
        }),
{
    let x = emit_steps(index_compressor(il), pos, row) + shift_steps(index_compressor(il));
    runs_from_the_first(k, p, m, x);
    reveal_with_fuel(run_from, 8);
    assert(pos + 1 - 4 == pos - pos % 4);
    kernel_writes(k, p, m, x[0]);
    let m1 = exec(k, p, m, x[0]);
    kernel_writes(k, p, m1, x[1]);
    let m2 = exec(k, p, m1, x[1]);
    kernel_writes(k, p, m2, x[2]);
    let m3 = exec(k, p, m2, x[2]);
    kernel_writes(k, p, m3, x[3]);
    let m4 = exec(k, p, m3, x[3]);
    kernel_writes(k, p, m4, x[4]);
    let m5 = exec(k, p, m4, x[4]);
    kernel_writes(k, p, m5, x[5]);
    let m6 = exec(k, p, m5, x[5]);
    kernel_writes(k, p, m6, x[6]);
}

/// Attention over all compressed rows.
pub(crate) proof fn mixed_attention_computes<V>(
    k: spec_fn(Step, int, Seq<V>) -> V,
    p: Seq<i32>,
    m: Memory<V>,
    w: ModelWeights,
    il: usize,
    pos: u32,
    row: u32,
    iq: Seq<V>,
)
    requires
        !(has_indexer(w, il as int) && seen_rows(il as int, row) > 512),
    ensures
        ({
            let e = run(k, p, m, attention_steps(w, il, pos, row));
            &&& (e.at)(Buf::Heads, 0) == attention(
                k,
                w,
                il,
                pos as int,
                seen_rows(il as int, row),
                (m.at)(Buf::Q, 0),
                iq,
                (m.at)(Buf::RawCache(il), 0),
                (m.at)(Buf::AttnCompCache(il), 0),
                (m.at)(Buf::IndexCompCache(il), 0),
            )
        }),
{
    let x = attention_steps(w, il, pos, row);
    runs_from_the_first(k, p, m, x);
    reveal_with_fuel(run_from, 3);
    kernel_writes(k, p, m, x[0]);
    let m1 = exec(k, p, m, x[0]);
    kernel_writes(k, p, m1, x[1]);
}

/// Attention over the best compressed rows.
pub(crate) proof fn indexed_attention_computes<V>(
    k: spec_fn(Step, int, Seq<V>) -> V,
    p: Seq<i32>,
    m: Memory<V>,
    w: ModelWeights,
    il: usize,
    pos: u32,
    row: u32,
    iq: Seq<V>,
)
    requires
        has_indexer(w, il as int),
        seen_rows(il as int, row) > 512,
        iq.len() == 2,
        iq[0] == (m.at)(Buf::IndexerQ, 0),
        iq[1] == (m.at)(Buf::IndexerWeights, 0),
    ensures
        ({
            let e = run(k, p, m, attention_steps(w, il, pos, row));
            &&& (e.at)(Buf::Heads, 0) == attention(
                k,
                w,
                il,
                pos as int,
                seen_rows(il as int, row),
                (m.at)(Buf::Q, 0),
                iq,
                (m.at)(Buf::RawCache(il), 0),
                (m.at)(Buf::AttnCompCache(il), 0),
                (m.at)(Buf::IndexCompCache(il), 0),
            )
        }),
{
    let x = attention_steps(w, il, pos, row);
    runs_from_the_first(k, p, m, x);
    reveal_with_fuel(run_from, 5);
    kernel_writes(k, p, m, x[0]);
    let m1 = exec(k, p, m, x[0]);
    kernel_writes(k, p, m1, x[1]);
    let m2 = exec(k, p, m1, x[1]);
    kernel_writes(k, p, m2, x[2]);
    let m3 = exec(k, p, m2, x[2]);
    kernel_writes(k, p, m3, x[3]);
}

/// The output of attention.
pub(crate) proof fn attn_out_computes<V>(
    k: spec_fn(Step, int, Seq<V>) -> V,
    p: Seq<i32>,
    m: Memory<V>,
    il: usize,
    pos: u32,
)
    ensures
        ({
            let e = run(k, p, m, attn_out_steps(il, pos));
            &&& (e.at)(Buf::AfterAttnHc, 0) == attention_output(
                k,
                il,
                pos as int,
                (m.at)(Buf::CurHc, 0),
                (m.at)(Buf::HcSplit, 0),
                (m.at)(Buf::Heads, 0),
            )
        }),
{
    let x = attn_out_steps(il, pos);
    runs_from_the_first(k, p, m, x);
    reveal_with_fuel(run_from, 8);
    kernel_writes(k, p, m, x[0]);
    let m1 = exec(k, p, m, x[0]);
    kernel_writes(k, p, m1, x[1]);
    let m2 = exec(k, p, m1, x[1]);
    kernel_writes(k, p, m2, x[2]);
    let m3 = exec(k, p, m2, x[2]);
    kernel_writes(k, p, m3, x[3]);
    let m4 = exec(k, p, m3, x[3]);
    kernel_writes(k, p, m4, x[4]);
    let m5 = exec(k, p, m4, x[4]);
    kernel_writes(k, p, m5, x[5]);
    let m6 = exec(k, p, m5, x[5]);
    kernel_writes(k, p, m6, x[6]);
    assert(args(m6, x[6], 0) =~= q8(k, 8192, 1, (m6.at)(Buf::AttnLow, 0)) + seq![
        (m6.at)(Buf::CurHc, 0),
        (m6.at)(Buf::HcSplit, 0),
    ]);
}

/// The shared expert.
pub(crate) proof fn shared_computes<V>(
    k: spec_fn(Step, int, Seq<V>) -> V,
    p: Seq<i32>,
    m: Memory<V>,
    w: ModelWeights,
    il: usize,
)
    requires
        holds(w, il as int, LayerSlot::FfnGateShexp),
    ensures
        ({
            let e = run(k, p, m, shared_steps(w, il));
            &&& (e.at)(Buf::SharedOut, 0) == shared_expert(k, il, (m.at)(Buf::FfnNorm, 0))
        }),
{
    let x = shared_steps(w, il);
    runs_from_the_first(k, p, m, x);
    reveal_with_fuel(run_from, 10);
    kernel_writes(k, p, m, x[0]);
    let m1 = exec(k, p, m, x[0]);
    kernel_writes(k, p, m1, x[1]);
    let m2 = exec(k, p, m1, x[1]);
    kernel_writes(k, p, m2, x[2]);
    let m3 = exec(k, p, m2, x[2]);
    kernel_writes(k, p, m3, x[3]);
    let m4 = exec(k, p, m3, x[3]);
    kernel_writes(k, p, m4, x[4]);
    let m5 = exec(k, p, m4, x[4]);
    kernel_writes(k, p, m5, x[5]);
    let m6 = exec(k, p, m5, x[5]);
    kernel_writes(k, p, m6, x[6]);
    let m7 = exec(k, p, m6, x[6]);
    kernel_writes(k, p, m7, x[7]);
    let m8 = exec(k, p, m7, x[7]);
    kernel_writes(k, p, m8, x[8]);
}

/// The chosen experts.
pub(crate) proof fn experts_compute<V>(
    k: spec_fn(Step, int, Seq<V>) -> V,
    p: Seq<i32>,
    m: Memory<V>,
    w: ModelWeights,
    il: usize,
    token: i32,
)
    requires
        (m.at)(Buf::RouterSelected, 0) == chosen(k, w, il, token, (m.at)(Buf::FfnNorm, 0), 1),
        (m.at)(Buf::RouterWeights, 0) == chosen(k, w, il, token, (m.at)(Buf::FfnNorm, 0), 2),
    ensures
        ({
            let e = run(k, p, m, expert_steps(il));
            &&& (e.at)(Buf::RoutedOut, 0) == routed_experts(
                k,
                w,
                il,
                token,
                (m.at)(Buf::FfnNorm, 0),
            )
        }),
{
    let x = expert_steps(il);
    runs_from_the_first(k, p, m, x);
    reveal_with_fuel(run_from, 8);
    kernel_writes(k, p, m, x[0]);
    let m1 = exec(k, p, m, x[0]);
    kernel_writes(k, p, m1, x[1]);
    let m2 = exec(k, p, m1, x[1]);
    kernel_writes(k, p, m2, x[2]);
    let m3 = exec(k, p, m2, x[2]);
    kernel_writes(k, p, m3, x[3]);
    let m4 = exec(k, p, m3, x[3]);
    kernel_writes(k, p, m4, x[4]);
    let m5 = exec(k, p, m4, x[4]);
    kernel_writes(k, p, m5, x[5]);
    let m6 = exec(k, p, m5, x[5]);
    kernel_writes(k, p, m6, x[6]);
}

/// Query and key of a token.
pub(crate) proof fn heads_compute<V>(
    k: spec_fn(Step, int, Seq<V>) -> V,
    p: Seq<i32>,
    m: Memory<V>,
    il: usize,
    pos: u32,
)
    ensures
        ({
            let e = run(k, p, m, heads_steps(il, pos));
            &&& (e.at)(Buf::Q, 0) == query(k, il, pos as int, (m.at)(Buf::AttnNorm, 0))
            &&& (e.at)(Buf::Kv, 0) == key(k, il, pos as int, (m.at)(Buf::AttnNorm, 0))
        }),
{
    let x = heads_steps(il, pos);
    runs_from_the_first(k, p, m, x);
    reveal_with_fuel(run_from, 15);
    kernel_writes(k, p, m, x[0]);
    let m1 = exec(k, p, m, x[0]);
    kernel_writes(k, p, m1, x[1]);
    let m2 = exec(k, p, m1, x[1]);
    kernel_writes(k, p, m2, x[2]);
    let m3 = exec(k, p, m2, x[2]);
    kernel_writes(k, p, m3, x[3]);
    let m4 = exec(k, p, m3, x[3]);
    kernel_writes(k, p, m4, x[4]);
    let m5 = exec(k, p, m4, x[4]);
    kernel_writes(k, p, m5, x[5]);
    let m6 = exec(k, p, m5, x[5]);
    kernel_writes(k, p, m6, x[6]);
    let m7 = exec(k, p, m6, x[6]);
    kernel_writes(k, p, m7, x[7]);
    let m8 = exec(k, p, m7, x[7]);
    kernel_writes(k, p, m8, x[8]);
    let m9 = exec(k, p, m8, x[8]);
    kernel_writes(k, p, m9, x[9]);
    let m10 = exec(k, p, m9, x[9]);
    kernel_writes(k, p, m10, x[10]);
    let m11 = exec(k, p, m10, x[10]);
    kernel_writes(k, p, m11, x[11]);
    let m12 = exec(k, p, m11, x[11]);
    kernel_writes(k, p, m12, x[12]);
    let m13 = exec(k, p, m12, x[12]);
    kernel_writes(k, p, m13, x[13]);
}

} // verus!
