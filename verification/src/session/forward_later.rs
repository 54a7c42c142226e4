//! What a chunk computes that is not the first of a fresh session.
use vstd::prelude::*;

use crate::model::{LayerSlot, ModelSlot, ModelWeights, Weight, N_HEAD_DIM, N_LAYER, N_SWA};
use crate::session::agree::{
    lasting, layer_bufs, run_concat, run_leaves, run_none, run_push, shares, step_leaves, untouched,
};
use crate::session::chunk_token::{give_step, given_rows, take_steps, taken, taken_rows_agree};
use crate::session::compressor::{attn_steps, index_steps, next_row, rows_after};
use crate::session::forward::{
    attention_output, attention_slots, block_input, embedding, feed_forward, key, query, rows_seen,
    state_of, window_len, window_start, window_with, Compressed, LayerState,
};
use crate::session::forward_first::{index_with, rows_with};
use crate::session::forward_layer::{
    attn_compressor_computes, attn_steps_leave, index_compressor_computes, index_steps_leave,
    rest_computes, rest_leaves,
};
use crate::session::forward_laws::same_state;
use crate::session::forward_parts::{
    attn_input_computes, attn_state, heads_compute, index_state, kernel_writes,
};
use crate::session::layer::{attn_in, batch_in, hc_in_steps, out_and_ffn_steps, seen_rows};
use crate::session::meaning::{args, exec, is_chunk, place, run, Memory};
use crate::session::prefill::{
    batch_attention_steps, batch_qkv_steps, chunk_layer_steps, chunk_layers_steps, chunk_steps,
    chunk_token_steps, chunk_tokens_steps, take_row, token_attention_steps,
};
use crate::session::results::{chunk_rows_agree, wide_steps_leave};
use crate::session::state::holds;
use crate::session::step::{ratio_of, Buf, Step, Q_DIM};
use crate::session::widen::{chunk_of, heads_steps, paired, row_agrees};

verus! {

/// Attention of a token to the window and to the first `n_comp` compressed rows.
pub open spec fn attention_to_all<V>(
    k: spec_fn(Step, int, Seq<V>) -> V,
    il: usize,
    pos: int,
    n_comp: u32,
    q: V,
    window: V,
    rows: V,
) -> V {
    let b = Buf::NoTokens;
    k(
        Step::DecodeMixed {
            q: b,
            raw: b,
            comp: b,
            sinks: Weight::Layer(il, LayerSlot::AttnSinks),
            heads: b,
            pos: pos as u32,
            n_raw: window_len(pos) as u32,
            raw_cap: 128,
            raw_start: window_start(pos) as u32,
            n_comp,
            window: 128,
            ratio: ratio_of(il as int),
        },
        0,
        seq![q, window, rows],
    )
}

/// A layer of a chunk: the position of its first token, the residual streams with which its tokens
/// enter the layer, and what the layer keeps before them.
#[verifier::reject_recursive_types(V)]
pub struct Later<V> {
    pub k: spec_fn(Step, int, Seq<V>) -> V,
    pub w: ModelWeights,
    pub cap: int,
    pub il: usize,
    pub first: int,
    pub row: u32,
    pub tokens: Seq<i32>,
    pub hc: Seq<V>,
    pub s: LayerState<V>,
}

impl<V> Later<V> {
    /// What the attention block makes of the streams of a token.
    pub open spec fn input(self, t: int) -> Seq<V> {
        block_input(self.k, self.il, attention_slots(), self.hc[t])
    }

    /// Rows in the cache before token `n`.
    pub open spec fn rows_before(self, n: nat) -> u32 {
        rows_after(self.w, self.il as int, self.first, n, self.row, self.cap)
    }

    /// The window after the first `n` tokens.
    pub open spec fn window(self, n: nat) -> V
        decreases n,
    {
        if n == 0 {
            self.s.window
        } else {
            let pos = self.first + n - 1;
            window_with(
                self.k,
                pos,
                self.window((n - 1) as nat),
                key(self.k, self.il, pos, self.input(n - 1)[2]),
            )
        }
    }

    /// The compressed rows after the first `n` tokens.
    pub open spec fn compressed(self, n: nat) -> Compressed<V>
        decreases n,
    {
        if n == 0 {
            self.s.rows
        } else {
            rows_with(
                self.k,
                self.w,
                self.il,
                self.first + n - 1,
                self.rows_before((n - 1) as nat),
                self.cap,
                self.input(n - 1)[2],
                self.compressed((n - 1) as nat),
            )
        }
    }

    /// The rows of the indexer after the first `n` tokens.
    pub open spec fn indexed(self, n: nat) -> Compressed<V>
        decreases n,
    {
        if n == 0 {
            self.s.index
        } else {
            index_with(
                self.k,
                self.w,
                self.il,
                self.first + n - 1,
                self.rows_before((n - 1) as nat),
                self.cap,
                self.input(n - 1)[2],
                self.indexed((n - 1) as nat),
            )
        }
    }

    /// The heads of a token: it attends to the window and the rows with itself in them.
    pub open spec fn heads(self, t: int) -> V {
        let pos = self.first + t;
        attention_to_all(
            self.k,
            self.il,
            pos,
            rows_seen(self.w, self.il, pos, self.rows_before(t as nat), self.cap),
            query(self.k, self.il, pos, self.input(t)[2]),
            self.window((t + 1) as nat),
            self.compressed((t + 1) as nat).cache,
        )
    }

    /// The residual streams of a token after the layer.
    pub open spec fn out(self, t: int) -> V {
        feed_forward(
            self.k,
            self.w,
            self.il,
            self.tokens[t],
            attention_output(
                self.k,
                self.il,
                self.first + t,
                self.hc[t],
                self.input(t)[0],
                self.heads(t),
            ),
        )
    }

    /// What the layer keeps after the tokens.
    pub open spec fn kept(self) -> LayerState<V> {
        LayerState {
            window: self.window(self.tokens.len()),
            rows: self.compressed(self.tokens.len()),
            index: self.indexed(self.tokens.len()),
        }
    }

    /// There are tokens, and a position for each of them behind the first; the layer has a shared
    /// expert.
    pub open spec fn fits(self) -> bool {
        &&& 0 < self.tokens.len() <= N_SWA
        &&& self.hc.len() == self.tokens.len()
        &&& 0 < self.first
        &&& self.first + self.tokens.len() <= u32::MAX
        &&& self.il < N_LAYER
        &&& holds(self.w, self.il as int, LayerSlot::FfnGateShexp)
    }
}

/// A token takes its query and its key from the rows of the chunk.
proof fn taken_rows<V>(k: spec_fn(Step, int, Seq<V>) -> V, p: Seq<i32>, m: Memory<V>, t: int)
    requires
        0 <= t < N_SWA,
    ensures
        ({
            let n = exec(k, p, m, take_row(Buf::BQ, t, Q_DIM, Buf::Q));
            &&& (n.at)(Buf::Q, 0) == (m.at)(Buf::BQ, t)
            &&& forall|b: Buf, r: int| b != Buf::Q ==> #[trigger] (n.at)(b, r) == (m.at)(b, r)
        }),
        ({
            let n = exec(k, p, m, take_row(Buf::BKv, t, N_HEAD_DIM, Buf::Kv));
            &&& (n.at)(Buf::Kv, 0) == (m.at)(Buf::BKv, t)
            &&& forall|b: Buf, r: int| b != Buf::Kv ==> #[trigger] (n.at)(b, r) == (m.at)(b, r)
        }),
{
    reveal(exec);
    assert(place(Buf::BQ, (t * Q_DIM) as usize, Q_DIM) == t);
    assert(place(Buf::BKv, (t * N_HEAD_DIM) as usize, N_HEAD_DIM) == t);
}

/// The attention of a token of a chunk.
proof fn token_attention_computes<V>(
    k: spec_fn(Step, int, Seq<V>) -> V,
    p: Seq<i32>,
    m: Memory<V>,
    il: usize,
    first: int,
    t: int,
    n_comp: u32,
)
    requires
        0 <= t < N_SWA,
        0 < first,
        first + t <= u32::MAX,
    ensures
        ({
            let e = run(k, p, m, token_attention_steps(il, first, t, n_comp));
            let window = window_with(
                k,
                first + t,
                (m.at)(Buf::RawCache(il), 0),
                (m.at)(Buf::BKv, t),
            );
            &&& (e.at)(Buf::RawCache(il), 0) == window
            &&& (e.at)(Buf::Heads, 0) == attention_to_all(
                k,
                il,
                first + t,
                n_comp,
                (m.at)(Buf::BQ, t),
                window,
                (m.at)(Buf::AttnCompCache(il), 0),
            )
            &&& forall|b: Buf, r: int|
                b != Buf::RawCache(il) && b != Buf::Heads && b != Buf::Q && b != Buf::Kv
                    ==> #[trigger] (e.at)(b, r) == (m.at)(b, r)
        }),
{
    let x = token_attention_steps(il, first, t, n_comp);
    let m1 = exec(k, p, m, x[0]);
    let m2 = exec(k, p, m1, x[1]);
    let m3 = exec(k, p, m2, x[2]);
    let m4 = exec(k, p, m3, x[3]);
    let e = exec(k, p, m4, x[4]);
    run_push(k, p, m, Seq::empty(), x[0]);
    run_push(k, p, m, seq![x[0]], x[1]);
    run_push(k, p, m, seq![x[0], x[1]], x[2]);
    run_push(k, p, m, seq![x[0], x[1], x[2]], x[3]);
    run_push(k, p, m, seq![x[0], x[1], x[2], x[3]], x[4]);
    assert(seq![x[0], x[1]] =~= seq![x[0]].push(x[1]));
    assert(seq![x[0], x[1], x[2]] =~= seq![x[0], x[1]].push(x[2]));
    assert(seq![x[0], x[1], x[2], x[3]] =~= seq![x[0], x[1], x[2]].push(x[3]));
    assert(x =~= seq![x[0], x[1], x[2], x[3]].push(x[4]));
    taken_rows(k, p, m, t);
    taken_rows(k, p, m1, t);
    kernel_writes(k, p, m2, x[2]);
    kernel_writes(k, p, m3, x[3]);
    kernel_writes(k, p, m4, x[4]);
    assert(args(m2, x[2], 0) =~= seq![(m.at)(Buf::RawCache(il), 0), (m.at)(Buf::BKv, t)]);
    assert forall|b: Buf, r: int| b != Buf::RawCache(il) implies #[trigger] (m3.at)(b, r) == (
    m2.at)(b, r) by {
        step_leaves(k, p, m2, x[2], b, r);
    }
    assert forall|b: Buf, r: int| true implies #[trigger] (m4.at)(b, r) == (m3.at)(b, r) by {
        step_leaves(k, p, m3, x[3], b, r);
    }
    assert forall|b: Buf, r: int| b != Buf::Heads implies #[trigger] (e.at)(b, r) == (m4.at)(
        b,
        r,
    ) by {
        step_leaves(k, p, m4, x[4], b, r);
    }
    assert(args(m4, x[4], 0) =~= seq![
        (m.at)(Buf::BQ, t),
        (m3.at)(Buf::RawCache(il), 0),
        (m.at)(Buf::AttnCompCache(il), 0),
    ]);
}

proof fn later_token_in_parts<V>(
    k: spec_fn(Step, int, Seq<V>) -> V,
    p: Seq<i32>,
    e: Memory<V>,
    w: ModelWeights,
    il: usize,
    first: int,
    t: int,
    token: i32,
    row: u32,
    cap: int,
)
    ensures
        ({
            let pos = (first + t) as u32;
            let n_comp = seen_rows(il as int, next_row(w, il as int, pos as int, row, cap));
            let e1 = run(k, p, e, take_steps(t));
            let e2 = run(k, p, e1, index_steps(w, il, pos, row, cap));
            let e3 = run(k, p, e2, attn_steps(w, il, pos, row, cap));
            let e4 = run(k, p, e3, token_attention_steps(il, first, t, n_comp));
            let e5 = run(k, p, e4, out_and_ffn_steps(w, il, pos, token));
            run(k, p, e, chunk_token_steps(w, il, first, t, token, row, cap)) == exec(
                k,
                p,
                e5,
                give_step(t),
            )
        }),
{
    let pos = (first + t) as u32;
    let n_comp = seen_rows(il as int, next_row(w, il as int, pos as int, row, cap));
    let a = take_steps(t);
    let b = index_steps(w, il, pos, row, cap);
    let c = attn_steps(w, il, pos, row, cap);
    let d = token_attention_steps(il, first, t, n_comp);
    let r = out_and_ffn_steps(w, il, pos, token);
    let g = seq![give_step(t)];
    assert(chunk_token_steps(w, il, first, t, token, row, cap) =~= a + b + c + d + r + g);
    run_concat(k, p, e, a, b);
    run_concat(k, p, e, a + b, c);
    run_concat(k, p, e, a + b + c, d);
    run_concat(k, p, e, a + b + c + d, r);
    run_concat(k, p, e, a + b + c + d + r, g);
    run_push(k, p, run(k, p, e, a + b + c + d + r), Seq::empty(), g[0]);
    assert(g =~= seq![g[0]]);
}

/// A token of a later chunk in one layer, where it is in row `t` of the chunk.
#[verifier::rlimit(40)]
#[verifier::spinoff_prover]
proof fn later_token_computes<V>(
    k: spec_fn(Step, int, Seq<V>) -> V,
    p: Seq<i32>,
    e: Memory<V>,
    w: ModelWeights,
    il: usize,
    first: int,
    t: int,
    token: i32,
    row: u32,
    cap: int,
)
    requires
        0 <= t < N_SWA,
        0 < first,
        first + t <= u32::MAX,
        holds(w, il as int, LayerSlot::FfnGateShexp),
    ensures
        ({
            let f = run(k, p, e, chunk_token_steps(w, il, first, t, token, row, cap));
            let pos = first + t;
            let x = (e.at)(Buf::BAttnNorm, t);
            let window = window_with(k, pos, (e.at)(Buf::RawCache(il), 0), (e.at)(Buf::BKv, t));
            let rows = rows_with(k, w, il, pos, row, cap, x, attn_state(e, il));
            &&& (f.at)(Buf::CurHc, 0) == feed_forward(
                k,
                w,
                il,
                token,
                attention_output(
                    k,
                    il,
                    pos,
                    (e.at)(Buf::BHc, t),
                    (e.at)(Buf::BHcSplit, t),
                    attention_to_all(
                        k,
                        il,
                        pos,
                        rows_seen(w, il, pos, row, cap),
                        (e.at)(Buf::BQ, t),
                        window,
                        rows.cache,
                    ),
                ),
            )
            &&& (f.at)(Buf::BHcNext, t) == (f.at)(Buf::CurHc, 0)
            &&& attn_state(f, il) == rows
            &&& index_state(f, il) == index_with(k, w, il, pos, row, cap, x, index_state(e, il))
            &&& (f.at)(Buf::RawCache(il), 0) == window
        }),
{
    let pos = (first + t) as u32;
    let n_comp = seen_rows(il as int, next_row(w, il as int, pos as int, row, cap));
    let take = take_steps(t);
    let b = index_steps(w, il, pos, row, cap);
    let c = attn_steps(w, il, pos, row, cap);
    let rest = out_and_ffn_steps(w, il, pos, token);
    let give = give_step(t);
    let e1 = run(k, p, e, take);
    let e2 = run(k, p, e1, b);
    let e3 = run(k, p, e2, c);
    let e4 = run(k, p, e3, token_attention_steps(il, first, t, n_comp));
    let e5 = run(k, p, e4, rest);
    let f = exec(k, p, e5, give);
    later_token_in_parts(k, p, e, w, il, first, t, token, row, cap);
    assert(n_comp == rows_seen(w, il, pos as int, row, cap));
    let x = Memory { at: |b: Buf, r: int| (e.at)(chunk_of(b), t), tokens: e.tokens };
    assert(row_agrees(e, t, x, taken())) by {
        assert forall|b: Buf| #[trigger] taken().contains(b) implies paired(b) && (e.at)(
            chunk_of(b),
            t,
        ) == (x.at)(b, 0) by {}
    }
    taken_rows_agree(k, p, e, x, t);
    let three = set![Buf::CurHc, Buf::HcSplit, Buf::AttnNorm];
    assert(three.contains(Buf::CurHc) && three.contains(Buf::HcSplit) && three.contains(
        Buf::AttnNorm,
    ));
    index_compressor_computes(k, p, e1, w, il, pos, row, cap);
    attn_compressor_computes(k, p, e2, w, il, pos, row, cap);
    assert forall|y: Buf|
        (y == Buf::CurHc || y == Buf::HcSplit || y == Buf::AttnNorm || y == Buf::AttnCompCache(il)
            || y == Buf::AttnStateKv(il) || y == Buf::AttnStateScore(il) || y == Buf::RawCache(
            il,
        )) implies #[trigger] (e2.at)(y, 0) == (e1.at)(y, 0) by {
        index_steps_leave(w, il, pos, row, cap, y);
        run_leaves(k, p, e1, b, y, 0);
    }
    assert forall|y: Buf|
        (y == Buf::CurHc || y == Buf::HcSplit || y == Buf::IndexCompCache(il) || y
            == Buf::IndexStateKv(il) || y == Buf::IndexStateScore(il) || y == Buf::RawCache(
            il,
        )) implies #[trigger] (e3.at)(y, 0) == (e2.at)(y, 0) by {
        attn_steps_leave(w, il, pos, row, cap, y);
        run_leaves(k, p, e2, c, y, 0);
    }
    assert forall|y: Buf| y == Buf::BQ || y == Buf::BKv implies #[trigger] (e3.at)(y, t) == (
    e.at)(y, t) by {
        assert(untouched(take, y));
        run_leaves(k, p, e, take, y, t);
        index_steps_leave(w, il, pos, row, cap, y);
        attn_steps_leave(w, il, pos, row, cap, y);
        run_leaves(k, p, e1, b, y, t);
        run_leaves(k, p, e2, c, y, t);
    }
    token_attention_computes(k, p, e3, il, first, t, n_comp);
    rest_computes(k, p, e4, w, il, pos, token);
    assert forall|y: Buf| #[trigger] layer_bufs(il).contains(y) implies (e5.at)(y, 0) == (e4.at)(
        y,
        0,
    ) by {
        assert(lasting(y));
        rest_leaves(w, il, pos, token, y);
        run_leaves(k, p, e4, rest, y, 0);
    }
    let own = layer_bufs(il);
    assert(own.contains(Buf::RawCache(il)) && own.contains(Buf::AttnCompCache(il))
        && own.contains(Buf::AttnStateKv(il)) && own.contains(Buf::AttnStateScore(il))
        && own.contains(Buf::IndexCompCache(il)) && own.contains(Buf::IndexStateKv(il))
        && own.contains(Buf::IndexStateScore(il)));
    given_rows(k, p, e5, t);
    assert(attn_state(e1, il) == attn_state(e, il));
    assert(index_state(e1, il) == index_state(e, il));
    assert(attn_state(e2, il) == attn_state(e1, il));
    assert(index_state(e3, il) == index_state(e2, il));
    assert(attn_state(f, il) == attn_state(e3, il));
    assert(index_state(f, il) == index_state(e3, il));
}

/// A token of a later chunk writes its row of the chunk and what its layer keeps, and nothing else
/// that lasts.
proof fn later_token_keeps<V>(
    k: spec_fn(Step, int, Seq<V>) -> V,
    p: Seq<i32>,
    e: Memory<V>,
    w: ModelWeights,
    il: usize,
    first: int,
    t: int,
    token: i32,
    row: u32,
    cap: int,
    b: Buf,
    r: int,
)
    requires
        0 <= t < N_SWA,
        0 < first,
        first + t <= u32::MAX,
        lasting(b),
        !layer_bufs(il).contains(b),
        b != Buf::BHcNext || r != t,
    ensures
        (run(k, p, e, chunk_token_steps(w, il, first, t, token, row, cap)).at)(b, r) == (e.at)(
            b,
            r,
        ),
{
    let pos = (first + t) as u32;
    let n_comp = seen_rows(il as int, next_row(w, il as int, pos as int, row, cap));
    let e1 = run(k, p, e, take_steps(t));
    let e2 = run(k, p, e1, index_steps(w, il, pos, row, cap));
    let e3 = run(k, p, e2, attn_steps(w, il, pos, row, cap));
    let e4 = run(k, p, e3, token_attention_steps(il, first, t, n_comp));
    let own = layer_bufs(il);
    assert(own.contains(Buf::RawCache(il)) && own.contains(Buf::AttnCompCache(il))
        && own.contains(Buf::AttnStateKv(il)) && own.contains(Buf::AttnStateScore(il))
        && own.contains(Buf::IndexCompCache(il)) && own.contains(Buf::IndexStateKv(il))
        && own.contains(Buf::IndexStateScore(il)));
    later_token_in_parts(k, p, e, w, il, first, t, token, row, cap);
    assert(untouched(take_steps(t), b));
    run_leaves(k, p, e, take_steps(t), b, r);
    index_steps_leave(w, il, pos, row, cap, b);
    run_leaves(k, p, e1, index_steps(w, il, pos, row, cap), b, r);
    attn_steps_leave(w, il, pos, row, cap, b);
    run_leaves(k, p, e2, attn_steps(w, il, pos, row, cap), b, r);
    token_attention_computes(k, p, e3, il, first, t, n_comp);
    rest_leaves(w, il, pos, token, b);
    run_leaves(k, p, e4, out_and_ffn_steps(w, il, pos, token), b, r);
    given_rows(k, p, run(k, p, e4, out_and_ffn_steps(w, il, pos, token)), t);
}

/// The tokens of a later chunk, one after the other, in one layer.
#[verifier::rlimit(40)]
#[verifier::spinoff_prover]
proof fn later_tokens_compute<V>(x: Later<V>, p: Seq<i32>, y: Memory<V>, n: nat)
    requires
        x.fits(),
        n <= x.tokens.len(),
        state_of(y, x.il) == x.s,
        forall|t: int|
            0 <= t < x.tokens.len() ==> {
                &&& (#[trigger] (y.at)(Buf::BHc, t)) == x.hc[t]
                &&& (y.at)(Buf::BHcSplit, t) == x.input(t)[0]
                &&& (y.at)(Buf::BAttnNorm, t) == x.input(t)[2]
                &&& (y.at)(Buf::BQ, t) == query(x.k, x.il, x.first + t, x.input(t)[2])
                &&& (y.at)(Buf::BKv, t) == key(x.k, x.il, x.first + t, x.input(t)[2])
            },
    ensures
        ({
            let e = run(
                x.k,
                p,
                y,
                chunk_tokens_steps(x.w, x.il, x.first, n, x.tokens, x.row, x.cap),
            );
            &&& attn_state(e, x.il) == x.compressed(n)
            &&& index_state(e, x.il) == x.indexed(n)
            &&& (e.at)(Buf::RawCache(x.il), 0) == x.window(n)
            &&& forall|t: int| 0 <= t < n ==> (#[trigger] (e.at)(Buf::BHcNext, t)) == x.out(t)
            &&& forall|b: Buf, r: int|
                lasting(b) && !layer_bufs(x.il).contains(b) && b != Buf::BHcNext
                    ==> #[trigger] (e.at)(b, r) == (y.at)(b, r)
            &&& n > 0 ==> (e.at)(Buf::CurHc, 0) == x.out(n - 1)
        }),
    decreases n,
{
    if n == 0 {
        run_none(x.k, p, y);
    } else {
        let il = x.il;
        let t = n - 1;
        later_tokens_compute(x, p, y, t as nat);
        let some = chunk_tokens_steps(x.w, il, x.first, t as nat, x.tokens, x.row, x.cap);
        let row = x.rows_before(t as nat);
        let more = chunk_token_steps(x.w, il, x.first, t, x.tokens[t], row, x.cap);
        let e = run(x.k, p, y, some);
        let f = run(x.k, p, e, more);
        run_concat(x.k, p, y, some, more);
        later_token_computes(x.k, p, e, x.w, il, x.first, t, x.tokens[t], row, x.cap);
        assert(lasting(Buf::BHc) && lasting(Buf::BHcSplit) && lasting(Buf::BAttnNorm) && lasting(
            Buf::BQ,
        ) && lasting(Buf::BKv));
        assert((e.at)(Buf::BHc, t) == (y.at)(Buf::BHc, t));
        assert((e.at)(Buf::BHcSplit, t) == (y.at)(Buf::BHcSplit, t));
        assert((e.at)(Buf::BAttnNorm, t) == (y.at)(Buf::BAttnNorm, t));
        assert((e.at)(Buf::BQ, t) == (y.at)(Buf::BQ, t));
        assert((e.at)(Buf::BKv, t) == (y.at)(Buf::BKv, t));
        assert((t + 1) as nat == n);
        assert(x.first + n - 1 == x.first + t);
        assert((f.at)(Buf::RawCache(il), 0) == x.window(n));
        assert(attn_state(f, il) == x.compressed(n));
        assert(index_state(f, il) == x.indexed(n));
        assert forall|u: int| 0 <= u < n implies (#[trigger] (f.at)(Buf::BHcNext, u)) == x.out(
            u,
        ) by {
            if u < t {
                later_token_keeps(
                    x.k,
                    p,
                    e,
                    x.w,
                    il,
                    x.first,
                    t,
                    x.tokens[t],
                    row,
                    x.cap,
                    Buf::BHcNext,
                    u,
                );
                assert((e.at)(Buf::BHcNext, u) == x.out(u));
            }
        }
        assert forall|b: Buf, r: int|
            lasting(b) && !layer_bufs(il).contains(b) && b != Buf::BHcNext implies #[trigger] (
        f.at)(b, r) == (y.at)(b, r) by {
            later_token_keeps(x.k, p, e, x.w, il, x.first, t, x.tokens[t], row, x.cap, b, r);
            assert((e.at)(b, r) == (y.at)(b, r));
        }
    }
}

/// What the steps over a chunk make of a row.
proof fn wide_rows_compute<V>(
    k: spec_fn(Step, int, Seq<V>) -> V,
    p: Seq<i32>,
    c: Memory<V>,
    il: usize,
    first: int,
    nc: u32,
    t: int,
)
    requires
        0 <= t < nc,
        0 <= first,
        first + nc <= u32::MAX,
    ensures
        ({
            let z = run(
                k,
                p,
                c,
                hc_in_steps(batch_in(il, nc)) + batch_qkv_steps(il, first as u32, nc),
            );
            let input = block_input(k, il, attention_slots(), (c.at)(Buf::BHc, t));
            &&& (z.at)(Buf::BHc, t) == (c.at)(Buf::BHc, t)
            &&& (z.at)(Buf::BHcSplit, t) == input[0]
            &&& (z.at)(Buf::BAttnNorm, t) == input[2]
            &&& (z.at)(Buf::BQ, t) == query(k, il, first + t, input[2])
            &&& (z.at)(Buf::BKv, t) == key(k, il, first + t, input[2])
        }),
{
    let q = Seq::<i32>::empty();
    let hc = (c.at)(Buf::BHc, t);
    let d = Memory { at: |b: Buf, r: int| hc, tokens: c.tokens };
    let one = hc_in_steps(attn_in(il));
    let two = heads_steps(il, (first + t) as u32);
    let d1 = run(k, q, d, one);
    let d2 = run(k, q, d1, two);
    chunk_rows_agree(k, p, c, d, il, first as u32, nc, t);
    run_concat(k, q, d, one, two);
    attn_input_computes(k, q, d, il);
    heads_compute(k, q, d1, il, (first + t) as u32);
    let s = set![Buf::CurHc, Buf::HcSplit, Buf::AttnNorm];
    assert(untouched(one, Buf::CurHc));
    run_leaves(k, q, d, one, Buf::CurHc, 0);
    assert forall|b: Buf| #[trigger] s.contains(b) implies (d2.at)(b, 0) == (d1.at)(b, 0) by {
        assert(untouched(two, b));
        run_leaves(k, q, d1, two, b, 0);
    }
    assert(s.contains(Buf::CurHc) && s.contains(Buf::HcSplit) && s.contains(Buf::AttnNorm));
    assert(taken().contains(Buf::CurHc) && taken().contains(Buf::HcSplit) && taken().contains(
        Buf::AttnNorm,
    ) && taken().contains(Buf::Q) && taken().contains(Buf::Kv));
}

proof fn later_layer_in_parts<V>(x: Later<V>, p: Seq<i32>, c: Memory<V>)
    requires
        x.fits(),
    ensures
        ({
            let nc = x.tokens.len() as u32;
            let first = x.first as u32;
            let wide = hc_in_steps(batch_in(x.il, nc)) + batch_qkv_steps(x.il, first, nc);
            let n = x.tokens.len();
            let each = chunk_tokens_steps(x.w, x.il, x.first, n, x.tokens, x.row, x.cap);
            run(
                x.k,
                p,
                c,
                chunk_layer_steps(x.w, x.il, x.first, x.tokens, x.row, x.cap),
            ) == exec(
                x.k,
                p,
                run(x.k, p, run(x.k, p, c, wide), each),
                Step::Swap { a: Buf::BHc, b: Buf::BHcNext },
            )
        }),
{
    let nc = x.tokens.len() as u32;
    let first = x.first as u32;
    let wide = hc_in_steps(batch_in(x.il, nc)) + batch_qkv_steps(x.il, first, nc);
    let each = chunk_tokens_steps(x.w, x.il, x.first, x.tokens.len(), x.tokens, x.row, x.cap);
    let swap = Step::Swap { a: Buf::BHc, b: Buf::BHcNext };
    let all = chunk_layer_steps(x.w, x.il, x.first, x.tokens, x.row, x.cap);
    assert(batch_attention_steps(x.il, first, nc) =~= Seq::<Step>::empty());
    assert(all =~= wide + each + seq![swap]);
    run_concat(x.k, p, c, wide, each);
    run_concat(x.k, p, c, wide + each, seq![swap]);
    run_push(x.k, p, run(x.k, p, c, wide + each), Seq::empty(), swap);
}

/// A layer of a later chunk.
#[verifier::rlimit(40)]
#[verifier::spinoff_prover]
proof fn later_layer_computes<V>(x: Later<V>, p: Seq<i32>, c: Memory<V>)
    requires
        x.fits(),
        state_of(c, x.il) == x.s,
        forall|t: int| 0 <= t < x.tokens.len() ==> (#[trigger] (c.at)(Buf::BHc, t)) == x.hc[t],
    ensures
        ({
            let f = run(
                x.k,
                p,
                c,
                chunk_layer_steps(x.w, x.il, x.first, x.tokens, x.row, x.cap),
            );
            &&& forall|t: int|
                0 <= t < x.tokens.len() ==> (#[trigger] (f.at)(Buf::BHc, t)) == x.out(t)
            &&& state_of(f, x.il) == x.kept()
            &&& forall|o: usize|
                o < N_LAYER && o != x.il ==> #[trigger] state_of(f, o) == state_of(c, o)
            &&& (f.at)(Buf::CurHc, 0) == x.out(x.tokens.len() - 1)
        }),
{
    let il = x.il;
    let n = x.tokens.len();
    let nc = n as u32;
    let wide = hc_in_steps(batch_in(il, nc)) + batch_qkv_steps(il, x.first as u32, nc);
    let each = chunk_tokens_steps(x.w, il, x.first, n, x.tokens, x.row, x.cap);
    let swap = Step::Swap { a: Buf::BHc, b: Buf::BHcNext };
    let z = run(x.k, p, c, wide);
    let e = run(x.k, p, z, each);
    let f = exec(x.k, p, e, swap);
    later_layer_in_parts(x, p, c);
    assert forall|b: Buf, r: int| #[trigger] (f.at)(b, r) == if b == Buf::BHc {
        (e.at)(Buf::BHcNext, r)
    } else if b == Buf::BHcNext {
        (e.at)(Buf::BHc, r)
    } else {
        (e.at)(b, r)
    } by {
        reveal(exec);
    }
    assert forall|b: Buf| !is_chunk(b) implies #[trigger] (z.at)(b, 0) == (c.at)(b, 0) by {
        wide_steps_leave(il, x.first as u32, nc, b);
        run_leaves(x.k, p, c, wide, b, 0);
    }
    assert forall|b: Buf| #[trigger] layer_bufs(il).contains(b) implies (z.at)(b, 0) == (c.at)(
        b,
        0,
    ) by {}
    same_state(z, c, il);
    assert forall|t: int| 0 <= t < n implies {
        &&& (#[trigger] (z.at)(Buf::BHc, t)) == x.hc[t]
        &&& (z.at)(Buf::BHcSplit, t) == x.input(t)[0]
        &&& (z.at)(Buf::BAttnNorm, t) == x.input(t)[2]
        &&& (z.at)(Buf::BQ, t) == query(x.k, il, x.first + t, x.input(t)[2])
        &&& (z.at)(Buf::BKv, t) == key(x.k, il, x.first + t, x.input(t)[2])
    } by {
        assert((c.at)(Buf::BHc, t) == x.hc[t]);
        wide_rows_compute(x.k, p, c, il, x.first, nc, t);
    }
    later_tokens_compute(x, p, z, n);
    assert forall|t: int| 0 <= t < n implies (#[trigger] (f.at)(Buf::BHc, t)) == x.out(t) by {
        assert((e.at)(Buf::BHcNext, t) == x.out(t));
    }
    assert forall|o: usize| o < N_LAYER && o != il implies #[trigger] state_of(f, o) == state_of(
        c,
        o,
    ) by {
        assert forall|b: Buf| #[trigger] layer_bufs(o).contains(b) implies (f.at)(b, 0) == (c.at)(
            b,
            0,
        ) by {
            assert(lasting(b));
            assert(!layer_bufs(il).contains(b));
            assert((e.at)(b, 0) == (z.at)(b, 0));
            assert((z.at)(b, 0) == (c.at)(b, 0));
        }
        same_state(f, c, o);
    }
}

/// A later chunk: the position of its first token, its tokens, the rows in the caches and what the
/// layers keep before it.
#[verifier::reject_recursive_types(V)]
pub struct Chunk<V> {
    pub k: spec_fn(Step, int, Seq<V>) -> V,
    pub w: ModelWeights,
    pub cap: int,
    pub first: int,
    pub rows: Seq<u32>,
    pub tokens: Seq<i32>,
    pub m: Memory<V>,
}

impl<V> Chunk<V> {
    /// A layer of the chunk, entered with these residual streams.
    pub open spec fn layer(self, il: usize, hc: Seq<V>) -> Later<V> {
        Later {
            k: self.k,
            w: self.w,
            cap: self.cap,
            il,
            first: self.first,
            row: self.rows[il as int],
            tokens: self.tokens,
            hc,
            s: state_of(self.m, il),
        }
    }

    /// The residual streams with which the tokens enter layer `l`.
    pub open spec fn streams(self, l: nat) -> Seq<V>
        decreases l,
    {
        if l == 0 {
            self.tokens.map_values(|token: i32| embedding(self.k, token))
        } else {
            let x = self.layer((l - 1) as usize, self.streams((l - 1) as nat));
            Seq::new(self.tokens.len(), |t: int| x.out(t))
        }
    }

    /// What a layer keeps after the chunk.
    pub open spec fn state(self, il: usize) -> LayerState<V> {
        self.layer(il, self.streams(il as nat)).kept()
    }

    /// There are tokens, and a position for each of them behind the first; every layer has a
    /// shared expert.
    pub open spec fn fits(self) -> bool {
        &&& 0 < self.tokens.len() <= N_SWA
        &&& 0 < self.first
        &&& self.first + self.tokens.len() <= u32::MAX
        &&& shares(self.w)
    }
}

/// Before layer `l`, a chunk holds the residual streams of its tokens, the layers that are done
/// keep what follows from them, and the others what they kept before.
pub open spec fn later_level<V>(x: Chunk<V>, c: Memory<V>, l: nat) -> bool {
    &&& x.streams(l).len() == x.tokens.len()
    &&& forall|t: int|
        0 <= t < x.tokens.len() ==> (#[trigger] (c.at)(Buf::BHc, t)) == x.streams(l)[t]
    &&& forall|il: usize|
        il < N_LAYER ==> #[trigger] state_of(c, il) == if il < l {
            x.state(il)
        } else {
            state_of(x.m, il)
        }
    &&& l > 0 ==> (c.at)(Buf::CurHc, 0) == x.streams(l)[x.tokens.len() - 1]
}

proof fn later_layers_compute<V>(x: Chunk<V>, p: Seq<i32>, c: Memory<V>, l: nat)
    requires
        x.fits(),
        l <= N_LAYER,
        later_level(x, c, 0),
    ensures
        later_level(
            x,
            run(x.k, p, c, chunk_layers_steps(x.w, l, x.first, x.tokens, x.rows, x.cap)),
            l,
        ),
    decreases l,
{
    if l == 0 {
        run_none(x.k, p, c);
    } else {
        let o = (l - 1) as nat;
        let il = o as usize;
        later_layers_compute(x, p, c, o);
        let some = chunk_layers_steps(x.w, o, x.first, x.tokens, x.rows, x.cap);
        let e = run(x.k, p, c, some);
        let y = x.layer(il, x.streams(o));
        let more = chunk_layer_steps(x.w, il, x.first, x.tokens, x.rows[o as int], x.cap);
        let f = run(x.k, p, e, more);
        run_concat(x.k, p, c, some, more);
        assert(holds(x.w, il as int, LayerSlot::FfnGateShexp));
        assert(state_of(e, il) == state_of(x.m, il));
        later_layer_computes(y, p, e);
        assert forall|t: int| 0 <= t < x.tokens.len() implies (#[trigger] (f.at)(Buf::BHc, t))
            == x.streams(l)[t] by {
            assert((f.at)(Buf::BHc, t) == y.out(t));
        }
        assert forall|a: usize| a < N_LAYER implies #[trigger] state_of(f, a) == if a < l {
            x.state(a)
        } else {
            state_of(x.m, a)
        } by {
            if a != il {
                assert(state_of(f, a) == state_of(e, a));
            }
        }
    }
}

/// A later chunk of a prompt.
pub(crate) proof fn later_chunk_computes<V>(
    x: Chunk<V>,
    p: Seq<i32>,
    at: int,
    e: Memory<V>,
)
    requires
        x.fits(),
        0 <= at,
        at + x.tokens.len() <= p.len() <= u32::MAX,
        x.tokens == p.subrange(at, at + x.tokens.len()),
        forall|il: usize| il < N_LAYER ==> #[trigger] state_of(e, il) == state_of(x.m, il),
    ensures
        later_level(
            x,
            run(
                x.k,
                p,
                e,
                chunk_steps(x.w, x.first, p, at, x.tokens.len() as int, x.rows, x.cap),
            ),
            N_LAYER as nat,
        ),
{
    let nc = x.tokens.len() as int;
    let table = Weight::Model(ModelSlot::TokenEmbd);
    let upload = Step::UploadTokens { first: at as usize, count: nc as usize };
    let need = Step::Need(table);
    let embed = Step::EmbedTokens {
        w: table,
        tokens: Buf::Tokens,
        out: Buf::BHc,
        n_tok: nc as u32,
    };
    let head = seq![upload, need, embed];
    let body = chunk_layers_steps(x.w, N_LAYER as nat, x.first, x.tokens, x.rows, x.cap);
    let m1 = exec(x.k, p, e, upload);
    let m2 = exec(x.k, p, m1, need);
    let c = exec(x.k, p, m2, embed);
    run_none(x.k, p, e);
    run_push(x.k, p, e, Seq::empty(), upload);
    run_push(x.k, p, e, seq![upload], need);
    run_push(x.k, p, e, seq![upload, need], embed);
    assert(seq![upload] =~= Seq::empty().push(upload));
    assert(seq![upload, need] =~= seq![upload].push(need));
    assert(head =~= seq![upload, need].push(embed));
    assert(run(x.k, p, e, head) == c);
    run_concat(x.k, p, e, head, body);
    assert forall|t: int| 0 <= t < nc implies (#[trigger] (c.at)(Buf::BHc, t)) == x.streams(
        0,
    )[t] by {
        reveal(exec);
        assert(m2.tokens == x.tokens);
        assert(args(m2, embed, t) =~= Seq::<V>::empty());
    }
    assert forall|il: usize| il < N_LAYER implies #[trigger] state_of(c, il) == state_of(
        x.m,
        il,
    ) by {
        assert(state_of(e, il) == state_of(x.m, il));
        assert forall|b: Buf| #[trigger] layer_bufs(il).contains(b) implies (c.at)(b, 0) == (
        e.at)(b, 0) by {
            step_leaves(x.k, p, e, upload, b, 0);
            step_leaves(x.k, p, m1, need, b, 0);
            step_leaves(x.k, p, m2, embed, b, 0);
        }
        same_state(c, e, il);
    }
    later_layers_compute(x, p, c, N_LAYER as nat);
}

} // verus!
