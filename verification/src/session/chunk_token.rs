//! A token of a chunk in one layer, next to the same token when it is decoded.
use vstd::prelude::*;

use crate::model::{LayerSlot, ModelWeights, N_EMBD, N_HEAD_DIM, N_INDEXER_TOP_K, N_SWA};
use crate::session::agree::{
    agree, attend_steps, compressed_bufs, compressors_agree, compressors_leave, lasting, layer_bufs,
    run_concat, run_leaves, run_push, step_leaves, tail_agrees, tail_leaves, tail_steps, untouched,
    untouched_concat,
};
use crate::session::compressor::{attn_steps, index_steps, next_row};
use crate::session::decode::layer_steps;
use crate::session::layer::{
    attention_steps, attn_in, has_indexer, hc_in_steps, index_query_steps, qkv_steps, seen_rows,
};
use crate::session::meaning::{args, exec, place, run, Memory};
use crate::session::prefill::{chunk_token_steps, take_row};
use crate::session::state::holds;
use crate::session::step::{Buf, Step, HC_DIM, MIX_HC, Q_DIM};
use crate::session::widen::{heads_steps, row_agrees};

verus! {

/// What a token of a chunk takes over from the steps over the whole chunk.
pub open spec fn taken() -> Set<Buf> {
    set![Buf::CurHc, Buf::HcSplit, Buf::AttnNorm, Buf::Q, Buf::Kv]
}

/// What precedes the caches in a layer, for one token.
pub open spec fn input_steps(il: usize, pos: u32) -> Seq<Step> {
    hc_in_steps(attn_in(il)) + heads_steps(il, pos)
}

/// The key of a token enters the window.
pub open spec fn store_step(il: usize, pos: u32) -> Step {
    Step::StoreRaw { kv: Buf::Kv, cache: Buf::RawCache(il), raw_cap: N_SWA as u32, pos, n_tok: 1 }
}

/// All compressed rows are attended to.
pub open spec fn sees_all(w: ModelWeights, il: usize, row: u32) -> bool {
    has_indexer(w, il as int) ==> seen_rows(il as int, row) <= N_INDEXER_TOP_K
}

pub(crate) proof fn layer_in_parts(
    w: ModelWeights,
    il: usize,
    pos: u32,
    token: i32,
    row: u32,
    cap: int,
)
    requires
        sees_all(w, il, next_row(w, il as int, pos as int, row, cap)),
    ensures
        layer_steps(w, il, pos, token, row, cap) == input_steps(il, pos) + seq![
            store_step(il, pos),
        ] + index_query_steps(w, il, pos) + (index_steps(w, il, pos, row, cap) + attn_steps(
            w,
            il,
            pos,
            row,
            cap,
        )) + tail_steps(
            w,
            il,
            pos,
            token,
            seen_rows(il as int, next_row(w, il as int, pos as int, row, cap)),
        ),
{
    let after = next_row(w, il as int, pos as int, row, cap);
    let n_comp = seen_rows(il as int, after);
    assert(qkv_steps(il, pos) =~= heads_steps(il, pos) + seq![store_step(il, pos)]);
    assert(attention_steps(w, il, pos, after) =~= attend_steps(il, pos, n_comp));
    assert(layer_steps(w, il, pos, token, row, cap) =~= input_steps(il, pos) + seq![
        store_step(il, pos),
    ] + index_query_steps(w, il, pos) + (index_steps(w, il, pos, row, cap) + attn_steps(
        w,
        il,
        pos,
        row,
        cap,
    )) + tail_steps(w, il, pos, token, n_comp));
}

/// The three rows that a token takes over before the compressors.
pub open spec fn take_steps(t: int) -> Seq<Step> {
    seq![
        take_row(Buf::BHc, t, HC_DIM, Buf::CurHc),
        take_row(Buf::BHcSplit, t, MIX_HC, Buf::HcSplit),
        take_row(Buf::BAttnNorm, t, N_EMBD, Buf::AttnNorm),
    ]
}

/// The two rows that a token takes over after them, and its key enters the window.
pub open spec fn take_and_store_steps(il: usize, pos: u32, t: int) -> Seq<Step> {
    seq![
        take_row(Buf::BQ, t, Q_DIM, Buf::Q),
        take_row(Buf::BKv, t, N_HEAD_DIM, Buf::Kv),
        store_step(il, pos),
    ]
}

/// The residual streams of a token go back to the chunk.
pub open spec fn give_step(t: int) -> Step {
    Step::CopyRow {
        src: Buf::CurHc,
        src_at: 0,
        dst: Buf::BHcNext,
        dst_at: (t * HC_DIM) as usize,
        n: HC_DIM,
    }
}

pub(crate) proof fn chunk_token_in_parts(
    w: ModelWeights,
    il: usize,
    first: int,
    t: int,
    token: i32,
    row: u32,
    cap: int,
)
    requires
        first != 0,
    ensures
        ({
            let pos = (first + t) as u32;
            let after = next_row(w, il as int, pos as int, row, cap);
            chunk_token_steps(w, il, first, t, token, row, cap) == take_steps(t) + (index_steps(
                w,
                il,
                pos,
                row,
                cap,
            ) + attn_steps(w, il, pos, row, cap)) + take_and_store_steps(il, pos, t) + tail_steps(
                w,
                il,
                pos,
                token,
                seen_rows(il as int, after),
            ) + seq![give_step(t)]
        }),
{
    let pos = (first + t) as u32;
    let after = next_row(w, il as int, pos as int, row, cap);
    assert(chunk_token_steps(w, il, first, t, token, row, cap) =~= take_steps(t) + (index_steps(
        w,
        il,
        pos,
        row,
        cap,
    ) + attn_steps(w, il, pos, row, cap)) + take_and_store_steps(il, pos, t) + tail_steps(
        w,
        il,
        pos,
        token,
        seen_rows(il as int, after),
    ) + seq![give_step(t)]);
}

pub(crate) proof fn inputs_leave(w: ModelWeights, il: usize, pos: u32, b: Buf)
    requires
        lasting(b) || b == Buf::CurHc,
    ensures
        untouched(input_steps(il, pos), b),
        untouched(index_query_steps(w, il, pos), b),
{
    assert(untouched(qkv_steps(il, pos).drop_last(), b));
    untouched_concat(hc_in_steps(attn_in(il)), heads_steps(il, pos), b);
}

/// A row of a chunk is copied from its place, or to it.
pub(crate) proof fn rows_have_places(t: int)
    requires
        0 <= t < N_SWA,
    ensures
        place(Buf::BHc, (t * HC_DIM) as usize, HC_DIM) == t,
        place(Buf::BHcNext, (t * HC_DIM) as usize, HC_DIM) == t,
        place(Buf::BHcSplit, (t * MIX_HC) as usize, MIX_HC) == t,
        place(Buf::BAttnNorm, (t * N_EMBD) as usize, N_EMBD) == t,
        place(Buf::BQ, (t * Q_DIM) as usize, Q_DIM) == t,
        place(Buf::BKv, (t * N_HEAD_DIM) as usize, N_HEAD_DIM) == t,
{
}

/// The residual streams of a token go to its row of the chunk, and to no other.
pub(crate) proof fn given_rows<V>(
    k: spec_fn(Step, int, Seq<V>) -> V,
    p: Seq<i32>,
    m: Memory<V>,
    t: int,
)
    requires
        0 <= t < N_SWA,
    ensures
        ({
            let n = exec(k, p, m, give_step(t));
            &&& (n.at)(Buf::BHcNext, t) == (m.at)(Buf::CurHc, 0)
            &&& forall|b: Buf, r: int|
                b != Buf::BHcNext || r != t ==> #[trigger] (n.at)(b, r) == (m.at)(b, r)
        }),
{
    reveal(exec);
    rows_have_places(t);
}

/// What a token took over is what it would have computed for itself.
pub(crate) proof fn taken_rows_agree<V>(
    k: spec_fn(Step, int, Seq<V>) -> V,
    p: Seq<i32>,
    e: Memory<V>,
    x: Memory<V>,
    t: int,
)
    requires
        0 <= t < N_SWA,
        row_agrees(e, t, x, taken()),
    ensures
        agree(
            run(k, p, e, take_steps(t)),
            x,
            set![Buf::CurHc, Buf::HcSplit, Buf::AttnNorm],
        ),
        forall|b: Buf, r: int|
            b != Buf::CurHc && b != Buf::HcSplit && b != Buf::AttnNorm ==> #[trigger] (run(
                k,
                p,
                e,
                take_steps(t),
            ).at)(b, r) == (e.at)(b, r),
{
    reveal(exec);
    rows_have_places(t);
    let a = take_row(Buf::BHc, t, HC_DIM, Buf::CurHc);
    let b = take_row(Buf::BHcSplit, t, MIX_HC, Buf::HcSplit);
    let c = take_row(Buf::BAttnNorm, t, N_EMBD, Buf::AttnNorm);
    run_push(k, p, e, Seq::empty(), a);
    run_push(k, p, e, seq![a], b);
    run_push(k, p, e, seq![a, b], c);
    assert(take_steps(t) =~= seq![a, b].push(c));
    assert(seq![a, b] =~= seq![a].push(b));
    assert(taken().contains(Buf::CurHc) && taken().contains(Buf::HcSplit) && taken().contains(
        Buf::AttnNorm,
    ));
}

/// The query that a token took over, and the window with its key, are what they would have been.
pub(crate) proof fn stored_keys_agree<V>(
    k: spec_fn(Step, int, Seq<V>) -> V,
    p: Seq<i32>,
    q: Seq<i32>,
    e: Memory<V>,
    x: Memory<V>,
    il: usize,
    pos: u32,
    t: int,
)
    requires
        0 <= t < N_SWA,
        row_agrees(e, t, x, set![Buf::Q, Buf::Kv]),
        (e.at)(Buf::RawCache(il), 0) == (x.at)(Buf::RawCache(il), 0),
    ensures
        ({
            let y = run(k, p, e, take_and_store_steps(il, pos, t));
            &&& (y.at)(Buf::Q, 0) == (x.at)(Buf::Q, 0)
            &&& (y.at)(Buf::RawCache(il), 0) == (exec(k, q, x, store_step(il, pos)).at)(
                Buf::RawCache(il),
                0,
            )
        }),
{
    reveal(exec);
    rows_have_places(t);
    let a = take_row(Buf::BQ, t, Q_DIM, Buf::Q);
    let b = take_row(Buf::BKv, t, N_HEAD_DIM, Buf::Kv);
    let c = store_step(il, pos);
    run_push(k, p, e, Seq::empty(), a);
    run_push(k, p, e, seq![a], b);
    run_push(k, p, e, seq![a, b], c);
    assert(take_and_store_steps(il, pos, t) =~= seq![a, b].push(c));
    assert(seq![a, b] =~= seq![a].push(b));
    let both = set![Buf::Q, Buf::Kv];
    assert(both.contains(Buf::Q) && both.contains(Buf::Kv));
    let z = run(k, p, e, seq![a, b]);
    assert((z.at)(Buf::Kv, 0) == (x.at)(Buf::Kv, 0));
    assert(args(z, c, 0) =~= args(x, c, 0));
}

/// The compressors of a token.
pub open spec fn comp_steps(w: ModelWeights, il: usize, pos: u32, row: u32, cap: int) -> Seq<Step> {
    index_steps(w, il, pos, row, cap) + attn_steps(w, il, pos, row, cap)
}

pub(crate) proof fn layer_runs_in_parts<V>(
    k: spec_fn(Step, int, Seq<V>) -> V,
    q: Seq<i32>,
    d: Memory<V>,
    w: ModelWeights,
    il: usize,
    pos: u32,
    token: i32,
    row: u32,
    cap: int,
)
    requires
        sees_all(w, il, next_row(w, il as int, pos as int, row, cap)),
    ensures
        ({
            let n_comp = seen_rows(il as int, next_row(w, il as int, pos as int, row, cap));
            let x = run(k, q, d, input_steps(il, pos));
            let d3 = run(k, q, exec(k, q, x, store_step(il, pos)), index_query_steps(w, il, pos));
            let d4 = run(k, q, d3, comp_steps(w, il, pos, row, cap));
            run(k, q, d, layer_steps(w, il, pos, token, row, cap)) == run(
                k,
                q,
                d4,
                tail_steps(w, il, pos, token, n_comp),
            )
        }),
{
    let n_comp = seen_rows(il as int, next_row(w, il as int, pos as int, row, cap));
    let input = input_steps(il, pos);
    let store = store_step(il, pos);
    let query = index_query_steps(w, il, pos);
    let comp = comp_steps(w, il, pos, row, cap);
    layer_in_parts(w, il, pos, token, row, cap);
    run_push(k, q, run(k, q, d, input), Seq::empty(), store);
    run_concat(k, q, d, input, seq![store]);
    run_concat(k, q, d, input + seq![store], query);
    run_concat(k, q, d, input + seq![store] + query, comp);
    run_concat(
        k,
        q,
        d,
        input + seq![store] + query + comp,
        tail_steps(w, il, pos, token, n_comp),
    );
}

pub(crate) proof fn chunk_token_runs_in_parts<V>(
    k: spec_fn(Step, int, Seq<V>) -> V,
    p: Seq<i32>,
    e: Memory<V>,
    w: ModelWeights,
    il: usize,
    first: int,
    t: int,
    token: i32,
    row: u32,
    cap: int,
)
    requires
        first != 0,
    ensures
        ({
            let pos = (first + t) as u32;
            let n_comp = seen_rows(il as int, next_row(w, il as int, pos as int, row, cap));
            let e2 = run(k, p, run(k, p, e, take_steps(t)), comp_steps(w, il, pos, row, cap));
            let e3 = run(k, p, e2, take_and_store_steps(il, pos, t));
            let e4 = run(k, p, e3, tail_steps(w, il, pos, token, n_comp));
            run(k, p, e, chunk_token_steps(w, il, first, t, token, row, cap)) == exec(
                k,
                p,
                e4,
                give_step(t),
            )
        }),
{
    let pos = (first + t) as u32;
    let n_comp = seen_rows(il as int, next_row(w, il as int, pos as int, row, cap));
    let take = take_steps(t);
    let comp = comp_steps(w, il, pos, row, cap);
    let again = take_and_store_steps(il, pos, t);
    let tail = tail_steps(w, il, pos, token, n_comp);
    chunk_token_in_parts(w, il, first, t, token, row, cap);
    run_concat(k, p, e, take, comp);
    run_concat(k, p, e, take + comp, again);
    run_concat(k, p, e, take + comp + again, tail);
    run_concat(k, p, e, take + comp + again + tail, seq![give_step(t)]);
    run_push(k, p, run(k, p, e, take + comp + again + tail), Seq::empty(), give_step(t));
}

/// What the compressors and the rest of the layer read, but for the query and the window.
pub open spec fn read_early(il: usize) -> Set<Buf> {
    compressed_bufs(il).insert(Buf::CurHc).insert(Buf::HcSplit).insert(Buf::AttnNorm)
}

pub(crate) proof fn inputs_agree<V>(
    k: spec_fn(Step, int, Seq<V>) -> V,
    p: Seq<i32>,
    q: Seq<i32>,
    e: Memory<V>,
    d: Memory<V>,
    w: ModelWeights,
    il: usize,
    pos: u32,
    t: int,
)
    requires
        0 <= t < N_SWA,
        row_agrees(e, t, run(k, q, d, input_steps(il, pos)), taken()),
        agree(e, d, layer_bufs(il)),
    ensures
        ({
            let x = run(k, q, d, input_steps(il, pos));
            let d3 = run(k, q, exec(k, q, x, store_step(il, pos)), index_query_steps(w, il, pos));
            agree(run(k, p, e, take_steps(t)), d3, read_early(il))
        }),
{
    let input = input_steps(il, pos);
    let query = index_query_steps(w, il, pos);
    let x = run(k, q, d, input);
    let d2 = exec(k, q, x, store_step(il, pos));
    let d3 = run(k, q, d2, query);
    let e1 = run(k, p, e, take_steps(t));
    taken_rows_agree(k, p, e, x, t);
    let own = compressed_bufs(il);
    let three = set![Buf::CurHc, Buf::HcSplit, Buf::AttnNorm];
    assert forall|b: Buf| #[trigger] read_early(il).contains(b) implies (e1.at)(b, 0) == (d3.at)(
        b,
        0,
    ) by {
        step_leaves(k, q, x, store_step(il, pos), b, 0);
        if own.contains(b) {
            assert(layer_bufs(il).contains(b));
            inputs_leave(w, il, pos, b);
            run_leaves(k, q, d, input, b, 0);
        } else {
            assert(three.contains(b));
            assert(untouched(query, b));
        }
        run_leaves(k, q, d2, query, b, 0);
    }
}

/// What attention and the rest of the layer read.
pub open spec fn read_late(il: usize) -> Set<Buf> {
    read_early(il).insert(Buf::Q).insert(Buf::RawCache(il))
}

pub(crate) proof fn windows_agree<V>(
    k: spec_fn(Step, int, Seq<V>) -> V,
    p: Seq<i32>,
    q: Seq<i32>,
    e: Memory<V>,
    d: Memory<V>,
    w: ModelWeights,
    il: usize,
    pos: u32,
    t: int,
    row: u32,
    cap: int,
)
    requires
        0 <= t < N_SWA,
        row_agrees(e, t, run(k, q, d, input_steps(il, pos)), taken()),
        agree(e, d, layer_bufs(il)),
    ensures
        ({
            let x = run(k, q, d, input_steps(il, pos));
            let d3 = run(k, q, exec(k, q, x, store_step(il, pos)), index_query_steps(w, il, pos));
            let d4 = run(k, q, d3, comp_steps(w, il, pos, row, cap));
            let e2 = run(k, p, run(k, p, e, take_steps(t)), comp_steps(w, il, pos, row, cap));
            let e3 = run(k, p, e2, take_and_store_steps(il, pos, t));
            agree(e3, d4, read_late(il))
        }),
{
    let input = input_steps(il, pos);
    let query = index_query_steps(w, il, pos);
    let comp = comp_steps(w, il, pos, row, cap);
    let again = take_and_store_steps(il, pos, t);
    let x = run(k, q, d, input);
    let d2 = exec(k, q, x, store_step(il, pos));
    let d3 = run(k, q, d2, query);
    let d4 = run(k, q, d3, comp);
    let e1 = run(k, p, e, take_steps(t));
    let e2 = run(k, p, e1, comp);
    let e3 = run(k, p, e2, again);
    inputs_agree(k, p, q, e, d, w, il, pos, t);
    compressors_agree(k, p, q, e1, d3, read_early(il), w, il, pos, row, cap);
    taken_rows_agree(k, p, e, x, t);
    let raw = Buf::RawCache(il);
    assert(layer_bufs(il).contains(raw));
    compressors_leave(w, il, pos, row, cap, raw);
    compressors_leave(w, il, pos, row, cap, Buf::Q);
    compressors_leave(w, il, pos, row, cap, Buf::BQ);
    compressors_leave(w, il, pos, row, cap, Buf::BKv);
    run_leaves(k, p, e1, comp, raw, 0);
    run_leaves(k, q, d3, comp, raw, 0);
    run_leaves(k, q, d3, comp, Buf::Q, 0);
    run_leaves(k, p, e1, comp, Buf::BQ, t);
    run_leaves(k, p, e1, comp, Buf::BKv, t);
    inputs_leave(w, il, pos, raw);
    run_leaves(k, q, d, input, raw, 0);
    run_leaves(k, q, d2, query, raw, 0);
    assert(untouched(query, Buf::Q));
    run_leaves(k, q, d2, query, Buf::Q, 0);
    step_leaves(k, q, x, store_step(il, pos), Buf::Q, 0);
    assert(row_agrees(e2, t, x, set![Buf::Q, Buf::Kv])) by {
        assert(taken().contains(Buf::Q) && taken().contains(Buf::Kv));
    }
    stored_keys_agree(k, p, q, e2, x, il, pos, t);
    assert forall|b: Buf| #[trigger] read_late(il).contains(b) implies (e3.at)(b, 0) == (d4.at)(
        b,
        0,
    ) by {
        if b != Buf::Q && b != raw {
            assert(read_early(il).contains(b));
            assert(untouched(again, b));
            run_leaves(k, p, e2, again, b, 0);
        }
    }
}

/// A token of a later chunk leaves a layer as it leaves it when it is decoded.
pub(crate) proof fn token_agrees<V>(
    k: spec_fn(Step, int, Seq<V>) -> V,
    p: Seq<i32>,
    q: Seq<i32>,
    e: Memory<V>,
    d: Memory<V>,
    w: ModelWeights,
    il: usize,
    first: int,
    t: int,
    token: i32,
    row: u32,
    cap: int,
)
    requires
        first > 0,
        0 <= t < N_SWA,
        first + t <= u32::MAX,
        row_agrees(e, t, run(k, q, d, input_steps(il, (first + t) as u32)), taken()),
        agree(e, d, layer_bufs(il)),
        holds(w, il as int, LayerSlot::FfnGateShexp),
        sees_all(w, il, next_row(w, il as int, first + t, row, cap)),
    ensures
        ({
            let e5 = run(k, p, e, chunk_token_steps(w, il, first, t, token, row, cap));
            let d5 = run(k, q, d, layer_steps(w, il, (first + t) as u32, token, row, cap));
            &&& agree(e5, d5, layer_bufs(il))
            &&& (e5.at)(Buf::CurHc, 0) == (d5.at)(Buf::CurHc, 0)
            &&& (e5.at)(Buf::BHcNext, t) == (d5.at)(Buf::CurHc, 0)
        }),
{
    let pos = (first + t) as u32;
    let n_comp = seen_rows(il as int, next_row(w, il as int, pos as int, row, cap));
    let comp = comp_steps(w, il, pos, row, cap);
    let tail = tail_steps(w, il, pos, token, n_comp);
    layer_runs_in_parts(k, q, d, w, il, pos, token, row, cap);
    chunk_token_runs_in_parts(k, p, e, w, il, first, t, token, row, cap);
    let x = run(k, q, d, input_steps(il, pos));
    let d3 = run(k, q, exec(k, q, x, store_step(il, pos)), index_query_steps(w, il, pos));
    let d4 = run(k, q, d3, comp);
    let e2 = run(k, p, run(k, p, e, take_steps(t)), comp);
    let e3 = run(k, p, e2, take_and_store_steps(il, pos, t));
    windows_agree(k, p, q, e, d, w, il, pos, t, row, cap);
    assert(compressed_bufs(il).contains(Buf::AttnCompCache(il)));
    tail_agrees(k, p, q, e3, d4, read_late(il), w, il, pos, token, n_comp);
    let d5 = run(k, q, d4, tail);
    let e4 = run(k, p, e3, tail);
    given_rows(k, p, e4, t);
    let e5 = exec(k, p, e4, give_step(t));
    assert(read_late(il).contains(Buf::CurHc));
    assert forall|b: Buf| #[trigger] layer_bufs(il).contains(b) implies (e5.at)(b, 0) == (d5.at)(
        b,
        0,
    ) by {
        assert(read_late(il).contains(b));
    }
}

/// A token of a chunk writes the caches of its layer and its own row of the chunk, and nothing
/// else that lasts.
pub(crate) proof fn chunk_token_keeps<V>(
    k: spec_fn(Step, int, Seq<V>) -> V,
    p: Seq<i32>,
    e: Memory<V>,
    w: ModelWeights,
    il: usize,
    first: int,
    t: int,
    token: i32,
    row: u32,
    cap: int,
    b: Buf,
    r: int,
)
    requires
        first != 0,
        0 <= t < N_SWA,
        lasting(b),
        !layer_bufs(il).contains(b),
        b != Buf::BHcNext || r != t,
    ensures
        (run(k, p, e, chunk_token_steps(w, il, first, t, token, row, cap)).at)(b, r) == (e.at)(
            b,
            r,
        ),
{
    let pos = (first + t) as u32;
    let n_comp = seen_rows(il as int, next_row(w, il as int, pos as int, row, cap));
    let comp = comp_steps(w, il, pos, row, cap);
    let again = take_and_store_steps(il, pos, t);
    let tail = tail_steps(w, il, pos, token, n_comp);
    chunk_token_runs_in_parts(k, p, e, w, il, first, t, token, row, cap);
    let e1 = run(k, p, e, take_steps(t));
    let e2 = run(k, p, e1, comp);
    let e3 = run(k, p, e2, again);
    assert(untouched(take_steps(t), b));
    run_leaves(k, p, e, take_steps(t), b, r);
    compressors_leave(w, il, pos, row, cap, b);
    run_leaves(k, p, e1, comp, b, r);
    assert(untouched(again, b)) by {
        assert(layer_bufs(il).contains(Buf::RawCache(il)));
    }
    run_leaves(k, p, e2, again, b, r);
    tail_leaves(w, il, pos, token, n_comp, b);
    run_leaves(k, p, e3, tail, b, r);
    given_rows(k, p, run(k, p, e3, tail), t);
}

/// A token that is decoded writes the caches of a layer in that layer only.
pub(crate) proof fn layer_keeps<V>(
    k: spec_fn(Step, int, Seq<V>) -> V,
    q: Seq<i32>,
    d: Memory<V>,
    w: ModelWeights,
    il: usize,
    pos: u32,
    token: i32,
    row: u32,
    cap: int,
    b: Buf,
)
    requires
        lasting(b),
        !layer_bufs(il).contains(b),
        sees_all(w, il, next_row(w, il as int, pos as int, row, cap)),
    ensures
        (run(k, q, d, layer_steps(w, il, pos, token, row, cap)).at)(b, 0) == (d.at)(b, 0),
{
    let n_comp = seen_rows(il as int, next_row(w, il as int, pos as int, row, cap));
    let query = index_query_steps(w, il, pos);
    let comp = comp_steps(w, il, pos, row, cap);
    let tail = tail_steps(w, il, pos, token, n_comp);
    layer_runs_in_parts(k, q, d, w, il, pos, token, row, cap);
    let x = run(k, q, d, input_steps(il, pos));
    let d2 = exec(k, q, x, store_step(il, pos));
    let d3 = run(k, q, d2, query);
    let d4 = run(k, q, d3, comp);
    inputs_leave(w, il, pos, b);
    run_leaves(k, q, d, input_steps(il, pos), b, 0);
    assert(layer_bufs(il).contains(Buf::RawCache(il)));
    step_leaves(k, q, x, store_step(il, pos), b, 0);
    run_leaves(k, q, d2, query, b, 0);
    compressors_leave(w, il, pos, row, cap, b);
    run_leaves(k, q, d3, comp, b, 0);
    tail_leaves(w, il, pos, token, n_comp, b);
    run_leaves(k, q, d4, tail, b, 0);
}

} // verus!
