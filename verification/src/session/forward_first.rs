//! What the first chunk of a fresh session computes.
use vstd::prelude::*;

use crate::model::{LayerSlot, ModelSlot, ModelWeights, Weight, N_LAYER, N_SWA};
use crate::session::agree::{
    lasting, layer_bufs, run_concat, run_leaves, run_none, run_push, shares, step_leaves, untouched,
};
use crate::session::chunk_token::{give_step, given_rows, take_steps, taken, taken_rows_agree};
use crate::session::compressor::{attn_steps, index_steps, rows_after};
use crate::session::forward::{
    attention_output, attention_rows, attention_slots, block_input, compressed_with, embedding,
    feed_forward, index_rows, key, query, state_of, Compressed, LayerState,
};
use crate::session::forward_layer::{
    attn_compressor_computes, attn_steps_leave, index_compressor_computes, index_steps_leave,
    rest_computes, rest_leaves,
};
use crate::session::forward_laws::same_state;
use crate::session::forward_parts::{
    attn_input_computes, attn_state, heads_compute, index_state, kernel_writes,
};
use crate::session::layer::{attn_in, batch_in, hc_in_steps, out_and_ffn_steps};
use crate::session::meaning::{args, exec, is_chunk, run, Memory};
use crate::session::prefill::{
    batch_attention_steps, batch_qkv_steps, chunk_layer_steps, chunk_layers_steps, chunk_steps,
    chunk_token_steps, chunk_tokens_steps, take_row,
};
use crate::session::results::{chunk_rows_agree, wide_steps_leave};
use crate::session::state::holds;
use crate::session::step::{ratio_of, Buf, Step, Q_DIM};
use crate::session::widen::{chunk_of, heads_steps, row_agrees};

verus! {

/// The compressed state of a layer after a token, of its normalised row.
pub open spec fn rows_with<V>(
    k: spec_fn(Step, int, Seq<V>) -> V,
    w: ModelWeights,
    il: usize,
    pos: int,
    row: u32,
    cap: int,
    x: V,
    s: Compressed<V>,
) -> Compressed<V> {
    if ratio_of(il as int) != 0 && holds(w, il as int, LayerSlot::AttnCompressorKv) {
        compressed_with(k, il, attention_rows(), pos, row, cap, x, s)
    } else {
        s
    }
}

/// The state of the indexer of a layer after a token, of its normalised row.
pub open spec fn index_with<V>(
    k: spec_fn(Step, int, Seq<V>) -> V,
    w: ModelWeights,
    il: usize,
    pos: int,
    row: u32,
    cap: int,
    x: V,
    s: Compressed<V>,
) -> Compressed<V> {
    if ratio_of(il as int) == 4 && holds(w, il as int, LayerSlot::IndexerCompressorKv) {
        compressed_with(k, il, index_rows(), pos, row, cap, x, s)
    } else {
        s
    }
}

/// A token of the first chunk in one layer, where it is in row `t` of the chunk.
proof fn first_token_computes<V>(
    k: spec_fn(Step, int, Seq<V>) -> V,
    p: Seq<i32>,
    e: Memory<V>,
    w: ModelWeights,
    il: usize,
    t: int,
    token: i32,
    row: u32,
    cap: int,
)
    requires
        0 <= t < N_SWA,
        holds(w, il as int, LayerSlot::FfnGateShexp),
    ensures
        ({
            let f = run(k, p, e, chunk_token_steps(w, il, 0, t, token, row, cap));
            let x = (e.at)(Buf::BAttnNorm, t);
            &&& (f.at)(Buf::CurHc, 0) == feed_forward(
                k,
                w,
                il,
                token,
                attention_output(
                    k,
                    il,
                    t,
                    (e.at)(Buf::BHc, t),
                    (e.at)(Buf::BHcSplit, t),
                    (e.at)(Buf::BHeads, t),
                ),
            )
            &&& (f.at)(Buf::BHcNext, t) == (f.at)(Buf::CurHc, 0)
            &&& attn_state(f, il) == rows_with(k, w, il, t, row, cap, x, attn_state(e, il))
            &&& index_state(f, il) == index_with(k, w, il, t, row, cap, x, index_state(e, il))
            &&& (f.at)(Buf::RawCache(il), 0) == (e.at)(Buf::RawCache(il), 0)
        }),
{
    let pos = t as u32;
    let take = take_steps(t);
    let b = index_steps(w, il, pos, row, cap);
    let c = attn_steps(w, il, pos, row, cap);
    let heads = take_row(Buf::BHeads, t, Q_DIM, Buf::Heads);
    let rest = out_and_ffn_steps(w, il, pos, token);
    let give = give_step(t);
    let e1 = run(k, p, e, take);
    let e2 = run(k, p, e1, b);
    let e3 = run(k, p, e2, c);
    let e4 = exec(k, p, e3, heads);
    let e5 = run(k, p, e4, rest);
    let f = exec(k, p, e5, give);
    first_token_in_parts(k, p, e, w, il, t, token, row, cap);
    let x = Memory { at: |b: Buf, r: int| (e.at)(chunk_of(b), t), tokens: e.tokens };
    assert(row_agrees(e, t, x, taken())) by {
        assert forall|b: Buf| #[trigger] taken().contains(b) implies crate::session::widen::paired(
            b,
        ) && (e.at)(chunk_of(b), t) == (x.at)(b, 0) by {}
    }
    taken_rows_agree(k, p, e, x, t);
    let three = set![Buf::CurHc, Buf::HcSplit, Buf::AttnNorm];
    assert(three.contains(Buf::CurHc) && three.contains(Buf::HcSplit) && three.contains(
        Buf::AttnNorm,
    ));
    index_compressor_computes(k, p, e1, w, il, pos, row, cap);
    attn_compressor_computes(k, p, e2, w, il, pos, row, cap);
    assert forall|y: Buf|
        (y == Buf::CurHc || y == Buf::HcSplit || y == Buf::AttnNorm || y == Buf::AttnCompCache(il)
            || y == Buf::AttnStateKv(il) || y == Buf::AttnStateScore(il) || y == Buf::RawCache(
            il,
        )) implies #[trigger] (e2.at)(y, 0) == (e1.at)(y, 0) by {
        index_steps_leave(w, il, pos, row, cap, y);
        run_leaves(k, p, e1, b, y, 0);
    }
    assert forall|y: Buf|
        (y == Buf::CurHc || y == Buf::HcSplit || y == Buf::IndexCompCache(il) || y
            == Buf::IndexStateKv(il) || y == Buf::IndexStateScore(il) || y == Buf::RawCache(
            il,
        )) implies #[trigger] (e3.at)(y, 0) == (e2.at)(y, 0) by {
        attn_steps_leave(w, il, pos, row, cap, y);
        run_leaves(k, p, e2, c, y, 0);
    }
    index_steps_leave(w, il, pos, row, cap, Buf::BHeads);
    attn_steps_leave(w, il, pos, row, cap, Buf::BHeads);
    run_leaves(k, p, e1, b, Buf::BHeads, t);
    run_leaves(k, p, e2, c, Buf::BHeads, t);
    taken_heads(k, p, e3, t);
    rest_computes(k, p, e4, w, il, pos, token);
    assert forall|y: Buf| #[trigger] layer_bufs(il).contains(y) implies (e5.at)(y, 0) == (e3.at)(
        y,
        0,
    ) by {
        assert(lasting(y));
        rest_leaves(w, il, pos, token, y);
        run_leaves(k, p, e4, rest, y, 0);
    }
    let own = layer_bufs(il);
    assert(own.contains(Buf::RawCache(il)) && own.contains(Buf::AttnCompCache(il))
        && own.contains(Buf::AttnStateKv(il)) && own.contains(Buf::AttnStateScore(il))
        && own.contains(Buf::IndexCompCache(il)) && own.contains(Buf::IndexStateKv(il))
        && own.contains(Buf::IndexStateScore(il)));
    given_rows(k, p, e5, t);
    assert(attn_state(e1, il) == attn_state(e, il));
    assert(index_state(e1, il) == index_state(e, il));
    assert(attn_state(e2, il) == attn_state(e1, il));
    assert(index_state(e3, il) == index_state(e2, il));
    assert(attn_state(f, il) == attn_state(e3, il));
    assert(index_state(f, il) == index_state(e3, il));
}

/// The heads of a token are its row of the heads of the chunk.
proof fn taken_heads<V>(k: spec_fn(Step, int, Seq<V>) -> V, p: Seq<i32>, m: Memory<V>, t: int)
    requires
        0 <= t < N_SWA,
    ensures
        ({
            let n = exec(k, p, m, take_row(Buf::BHeads, t, Q_DIM, Buf::Heads));
            &&& (n.at)(Buf::Heads, 0) == (m.at)(Buf::BHeads, t)
            &&& forall|b: Buf, r: int|
                b != Buf::Heads ==> #[trigger] (n.at)(b, r) == (m.at)(b, r)
        }),
{
    reveal(exec);
    assert(crate::session::meaning::place(Buf::BHeads, (t * Q_DIM) as usize, Q_DIM) == t);
}

proof fn first_token_in_parts<V>(
    k: spec_fn(Step, int, Seq<V>) -> V,
    p: Seq<i32>,
    e: Memory<V>,
    w: ModelWeights,
    il: usize,
    t: int,
    token: i32,
    row: u32,
    cap: int,
)
    requires
        0 <= t < N_SWA,
    ensures
        ({
            let pos = t as u32;
            let e1 = run(k, p, e, take_steps(t));
            let e2 = run(k, p, e1, index_steps(w, il, pos, row, cap));
            let e3 = run(k, p, e2, attn_steps(w, il, pos, row, cap));
            let e4 = exec(k, p, e3, take_row(Buf::BHeads, t, Q_DIM, Buf::Heads));
            let e5 = run(k, p, e4, out_and_ffn_steps(w, il, pos, token));
            run(k, p, e, chunk_token_steps(w, il, 0, t, token, row, cap)) == exec(
                k,
                p,
                e5,
                give_step(t),
            )
        }),
{
    let pos = t as u32;
    let a = take_steps(t);
    let b = index_steps(w, il, pos, row, cap);
    let c = attn_steps(w, il, pos, row, cap);
    let d = seq![take_row(Buf::BHeads, t, Q_DIM, Buf::Heads)];
    let r = out_and_ffn_steps(w, il, pos, token);
    let g = seq![give_step(t)];
    assert(chunk_token_steps(w, il, 0, t, token, row, cap) =~= a + b + c + d + r + g);
    run_concat(k, p, e, a, b);
    run_concat(k, p, e, a + b, c);
    run_concat(k, p, e, a + b + c, d);
    run_concat(k, p, e, a + b + c + d, r);
    run_concat(k, p, e, a + b + c + d + r, g);
    run_push(k, p, run(k, p, e, a + b + c), Seq::empty(), d[0]);
    run_push(k, p, run(k, p, e, a + b + c + d + r), Seq::empty(), g[0]);
    assert(d =~= seq![d[0]]);
    assert(g =~= seq![g[0]]);
}

/// A token of the first chunk writes its row of the chunk and the compressed rows of its layer, and
/// nothing else that lasts.
proof fn first_token_keeps<V>(
    k: spec_fn(Step, int, Seq<V>) -> V,
    p: Seq<i32>,
    e: Memory<V>,
    w: ModelWeights,
    il: usize,
    t: int,
    token: i32,
    row: u32,
    cap: int,
    b: Buf,
    r: int,
)
    requires
        0 <= t < N_SWA,
        lasting(b),
        !layer_bufs(il).contains(b),
        b != Buf::BHcNext || r != t,
    ensures
        (run(k, p, e, chunk_token_steps(w, il, 0, t, token, row, cap)).at)(b, r) == (e.at)(b, r),
{
    let pos = t as u32;
    let e1 = run(k, p, e, take_steps(t));
    let e2 = run(k, p, e1, index_steps(w, il, pos, row, cap));
    let e3 = run(k, p, e2, attn_steps(w, il, pos, row, cap));
    let e4 = exec(k, p, e3, take_row(Buf::BHeads, t, Q_DIM, Buf::Heads));
    let own = layer_bufs(il);
    assert(own.contains(Buf::AttnCompCache(il)) && own.contains(Buf::AttnStateKv(il))
        && own.contains(Buf::AttnStateScore(il)) && own.contains(Buf::IndexCompCache(il))
        && own.contains(Buf::IndexStateKv(il)) && own.contains(Buf::IndexStateScore(il)));
    first_token_in_parts(k, p, e, w, il, t, token, row, cap);
    assert(untouched(take_steps(t), b));
    run_leaves(k, p, e, take_steps(t), b, r);
    index_steps_leave(w, il, pos, row, cap, b);
    run_leaves(k, p, e1, index_steps(w, il, pos, row, cap), b, r);
    attn_steps_leave(w, il, pos, row, cap, b);
    run_leaves(k, p, e2, attn_steps(w, il, pos, row, cap), b, r);
    taken_heads(k, p, e3, t);
    rest_leaves(w, il, pos, token, b);
    run_leaves(k, p, e4, out_and_ffn_steps(w, il, pos, token), b, r);
    given_rows(k, p, run(k, p, e4, out_and_ffn_steps(w, il, pos, token)), t);
}

/// The window after the keys of a whole chunk went into it, from position 0 on.
pub open spec fn window_of_chunk<V>(
    k: spec_fn(Step, int, Seq<V>) -> V,
    window: V,
    keys: Seq<V>,
) -> V {
    let b = Buf::NoTokens;
    k(
        Step::StoreRaw { kv: b, cache: b, raw_cap: 128, pos: 0, n_tok: keys.len() as u32 },
        0,
        seq![window] + keys,
    )
}

/// Attention of token `t` of the first chunk over the window alone, as the last of the tokens up to
/// its own.
pub open spec fn first_heads<V>(
    k: spec_fn(Step, int, Seq<V>) -> V,
    il: usize,
    t: int,
    q: V,
    window: V,
) -> V {
    let b = Buf::NoTokens;
    k(
        Step::PrefillRaw {
            q: b,
            raw: b,
            sinks: Weight::Layer(il, LayerSlot::AttnSinks),
            heads: b,
            n_tok: (t + 1) as u32,
            window: 128,
        },
        0,
        seq![q, window],
    )
}

/// The residual streams with which token `t` of the first chunk enters layer `l`: every token
/// attends to the keys of the chunk, by the query of its own.
pub open spec fn first_streams<V>(
    k: spec_fn(Step, int, Seq<V>) -> V,
    w: ModelWeights,
    tokens: Seq<i32>,
    m: Memory<V>,
    l: nat,
    t: int,
) -> V
    decreases l, 0int,
{
    if l == 0 {
        embedding(k, tokens[t])
    } else {
        let o = (l - 1) as nat;
        let il = o as usize;
        let hc = first_streams(k, w, tokens, m, o, t);
        let input = block_input(k, il, attention_slots(), hc);
        let window = window_of_chunk(
            k,
            (m.at)(Buf::RawCache(il), 0),
            first_keys(k, w, tokens, m, o),
        );
        let heads = first_heads(k, il, t, query(k, il, t, input[2]), window);
        feed_forward(k, w, il, tokens[t], attention_output(k, il, t, hc, input[0], heads))
    }
}

/// The keys of all tokens of the first chunk in layer `l`.
pub open spec fn first_keys<V>(
    k: spec_fn(Step, int, Seq<V>) -> V,
    w: ModelWeights,
    tokens: Seq<i32>,
    m: Memory<V>,
    l: nat,
) -> Seq<V>
    decreases l, 1int,
{
    Seq::new(
        tokens.len(),
        |u: int|
            key(
                k,
                l as usize,
                u,
                block_input(
                    k,
                    l as usize,
                    attention_slots(),
                    first_streams(k, w, tokens, m, l, u),
                )[2],
            ),
    )
}

/// The first chunk of a fresh session.
#[verifier::reject_recursive_types(V)]
pub struct First<V> {
    pub k: spec_fn(Step, int, Seq<V>) -> V,
    pub w: ModelWeights,
    pub cap: int,
    pub rows: Seq<u32>,
    pub tokens: Seq<i32>,
    pub m: Memory<V>,
}

impl<V> First<V> {
    /// The residual streams of a token before a layer.
    #[verifier::opaque]
    pub open spec fn streams(self, l: nat, t: int) -> V {
        first_streams(self.k, self.w, self.tokens, self.m, l, t)
    }

    /// What the attention block of a layer makes of them.
    pub open spec fn input(self, il: usize, t: int) -> Seq<V> {
        block_input(self.k, il, attention_slots(), self.streams(il as nat, t))
    }

    /// The keys of all tokens in a layer.
    pub open spec fn keys(self, il: usize) -> Seq<V> {
        Seq::new(self.tokens.len(), |u: int| key(self.k, il, u, self.input(il, u)[2]))
    }

    /// The window of a layer after the chunk.
    pub open spec fn window(self, il: usize) -> V {
        window_of_chunk(self.k, (self.m.at)(Buf::RawCache(il), 0), self.keys(il))
    }

    /// The heads of a token in a layer.
    pub open spec fn heads(self, il: usize, t: int) -> V {
        first_heads(
            self.k,
            il,
            t,
            query(self.k, il, t, self.input(il, t)[2]),
            self.window(il),
        )
    }

    /// Rows in the cache of a layer before token `n`.
    pub open spec fn row(self, il: usize, n: nat) -> u32 {
        rows_after(self.w, il as int, 0, n, self.rows[il as int], self.cap)
    }

    /// The compressed rows of a layer after the first `n` tokens.
    pub open spec fn compressed(self, il: usize, n: nat) -> Compressed<V>
        decreases n,
    {
        if n == 0 {
            state_of(self.m, il).rows
        } else {
            rows_with(
                self.k,
                self.w,
                il,
                n - 1,
                self.row(il, (n - 1) as nat),
                self.cap,
                self.input(il, n - 1)[2],
                self.compressed(il, (n - 1) as nat),
            )
        }
    }

    /// The rows of the indexer of a layer after the first `n` tokens.
    pub open spec fn indexed(self, il: usize, n: nat) -> Compressed<V>
        decreases n,
    {
        if n == 0 {
            state_of(self.m, il).index
        } else {
            index_with(
                self.k,
                self.w,
                il,
                n - 1,
                self.row(il, (n - 1) as nat),
                self.cap,
                self.input(il, n - 1)[2],
                self.indexed(il, (n - 1) as nat),
            )
        }
    }

    /// What a layer keeps after the chunk.
    pub open spec fn state(self, il: usize) -> LayerState<V> {
        LayerState {
            window: self.window(il),
            rows: self.compressed(il, self.tokens.len()),
            index: self.indexed(il, self.tokens.len()),
        }
    }

    /// There are tokens, as many as the window has rows or fewer, and every layer has a shared
    /// expert.
    pub open spec fn fits(self) -> bool {
        0 < self.tokens.len() <= N_SWA && shares(self.w)
    }
}

/// The next layer of a token.
proof fn first_streams_go_on<V>(x: First<V>, il: usize, t: int)
    requires
        il < N_LAYER,
    ensures
        x.streams((il + 1) as nat, t) == feed_forward(
            x.k,
            x.w,
            il,
            x.tokens[t],
            attention_output(
                x.k,
                il,
                t,
                x.streams(il as nat, t),
                x.input(il, t)[0],
                x.heads(il, t),
            ),
        ),
{
    reveal(First::streams);
    let l = (il + 1) as nat;
    assert((l - 1) as nat as usize == il);
    assert(first_keys(x.k, x.w, x.tokens, x.m, il as nat) =~= x.keys(il));
}

/// What the steps over a chunk make of a row.
proof fn wide_rows_compute<V>(
    k: spec_fn(Step, int, Seq<V>) -> V,
    p: Seq<i32>,
    c: Memory<V>,
    il: usize,
    nc: u32,
    t: int,
)
    requires
        0 <= t < nc,
    ensures
        ({
            let z = run(k, p, c, hc_in_steps(batch_in(il, nc)) + batch_qkv_steps(il, 0, nc));
            let input = block_input(k, il, attention_slots(), (c.at)(Buf::BHc, t));
            &&& (z.at)(Buf::BHc, t) == (c.at)(Buf::BHc, t)
            &&& (z.at)(Buf::BHcSplit, t) == input[0]
            &&& (z.at)(Buf::BAttnNorm, t) == input[2]
            &&& (z.at)(Buf::BQ, t) == query(k, il, t, input[2])
            &&& (z.at)(Buf::BKv, t) == key(k, il, t, input[2])
        }),
{
    let q = Seq::<i32>::empty();
    let hc = (c.at)(Buf::BHc, t);
    let d = Memory { at: |b: Buf, r: int| hc, tokens: c.tokens };
    let one = hc_in_steps(attn_in(il));
    let two = heads_steps(il, t as u32);
    let d1 = run(k, q, d, one);
    let d2 = run(k, q, d1, two);
    chunk_rows_agree(k, p, c, d, il, 0, nc, t);
    run_concat(k, q, d, one, two);
    attn_input_computes(k, q, d, il);
    heads_compute(k, q, d1, il, t as u32);
    let s = set![Buf::CurHc, Buf::HcSplit, Buf::AttnNorm];
    assert(untouched(one, Buf::CurHc));
    run_leaves(k, q, d, one, Buf::CurHc, 0);
    assert forall|b: Buf| #[trigger] s.contains(b) implies (d2.at)(b, 0) == (d1.at)(b, 0) by {
        assert(untouched(two, b));
        run_leaves(k, q, d1, two, b, 0);
    }
    assert(s.contains(Buf::CurHc) && s.contains(Buf::HcSplit) && s.contains(Buf::AttnNorm));
    assert(taken().contains(Buf::CurHc) && taken().contains(Buf::HcSplit) && taken().contains(
        Buf::AttnNorm,
    ) && taken().contains(Buf::Q) && taken().contains(Buf::Kv));
}

/// The keys of the chunk go to the window, and every token attends to it.
proof fn batch_attention_computes<V>(
    k: spec_fn(Step, int, Seq<V>) -> V,
    p: Seq<i32>,
    z: Memory<V>,
    il: usize,
    nc: u32,
)
    ensures
        ({
            let y = run(k, p, z, batch_attention_steps(il, 0, nc));
            let window = window_of_chunk(
                k,
                (z.at)(Buf::RawCache(il), 0),
                Seq::new(nc as nat, |u: int| (z.at)(Buf::BKv, u)),
            );
            &&& (y.at)(Buf::RawCache(il), 0) == window
            &&& forall|t: int|
                0 <= t < nc ==> (#[trigger] (y.at)(Buf::BHeads, t)) == first_heads(
                    k,
                    il,
                    t,
                    (z.at)(Buf::BQ, t),
                    window,
                )
            &&& forall|b: Buf, r: int|
                b != Buf::RawCache(il) && b != Buf::BHeads ==> #[trigger] (y.at)(b, r) == (z.at)(
                    b,
                    r,
                )
        }),
{
    let x = batch_attention_steps(il, 0, nc);
    let y1 = exec(k, p, z, x[0]);
    let y2 = exec(k, p, y1, x[1]);
    let y = exec(k, p, y2, x[2]);
    run_push(k, p, z, Seq::empty(), x[0]);
    run_push(k, p, z, seq![x[0]], x[1]);
    run_push(k, p, z, seq![x[0], x[1]], x[2]);
    assert(seq![x[0], x[1]] =~= seq![x[0]].push(x[1]));
    assert(x =~= seq![x[0], x[1]].push(x[2]));
    let keys = Seq::new(nc as nat, |u: int| (z.at)(Buf::BKv, u));
    kernel_writes(k, p, z, x[0]);
    kernel_writes(k, p, y1, x[1]);
    assert(args(z, x[0], 0) =~= seq![(z.at)(Buf::RawCache(il), 0)] + keys);
    assert forall|b: Buf, r: int|
        b != Buf::RawCache(il) && b != Buf::BHeads implies #[trigger] (y.at)(b, r) == (z.at)(
        b,
        r,
    ) by {
        step_leaves(k, p, z, x[0], b, r);
        step_leaves(k, p, y1, x[1], b, r);
        step_leaves(k, p, y2, x[2], b, r);
    }
    step_leaves(k, p, y2, x[2], Buf::RawCache(il), 0);
    let window = (y1.at)(Buf::RawCache(il), 0);
    assert forall|t: int| 0 <= t < nc implies (#[trigger] (y.at)(Buf::BHeads, t)) == first_heads(
        k,
        il,
        t,
        (z.at)(Buf::BQ, t),
        window,
    ) by {
        step_leaves(k, p, z, x[0], Buf::BQ, t);
        step_leaves(k, p, y1, x[1], Buf::BQ, t);
        assert(args(y2, x[2], t) =~= seq![(z.at)(Buf::BQ, t), window]);
        reveal(exec);
    }
}

/// The tokens of the first chunk, one after the other, in one layer.
#[verifier::rlimit(40)]
#[verifier::spinoff_prover]
proof fn first_tokens_compute<V>(x: First<V>, p: Seq<i32>, y: Memory<V>, il: usize, n: nat)
    requires
        x.fits(),
        il < N_LAYER,
        n <= x.tokens.len(),
        attn_state(y, il) == state_of(x.m, il).rows,
        index_state(y, il) == state_of(x.m, il).index,
        forall|t: int|
            0 <= t < x.tokens.len() ==> {
                &&& (#[trigger] (y.at)(Buf::BHc, t)) == x.streams(il as nat, t)
                &&& (y.at)(Buf::BHcSplit, t) == x.input(il, t)[0]
                &&& (y.at)(Buf::BAttnNorm, t) == x.input(il, t)[2]
                &&& (y.at)(Buf::BHeads, t) == x.heads(il, t)
            },
    ensures
        ({
            let e = run(
                x.k,
                p,
                y,
                chunk_tokens_steps(x.w, il, 0, n, x.tokens, x.rows[il as int], x.cap),
            );
            &&& attn_state(e, il) == x.compressed(il, n)
            &&& index_state(e, il) == x.indexed(il, n)
            &&& (e.at)(Buf::RawCache(il), 0) == (y.at)(Buf::RawCache(il), 0)
            &&& forall|t: int|
                0 <= t < n ==> (#[trigger] (e.at)(Buf::BHcNext, t)) == x.streams(
                    (il + 1) as nat,
                    t,
                )
            &&& forall|b: Buf, r: int|
                lasting(b) && !layer_bufs(il).contains(b) && b != Buf::BHcNext
                    ==> #[trigger] (e.at)(b, r) == (y.at)(b, r)
            &&& n > 0 ==> (e.at)(Buf::CurHc, 0) == x.streams((il + 1) as nat, n - 1)
        }),
    decreases n,
{
    let row0 = x.rows[il as int];
    if n == 0 {
        run_none(x.k, p, y);
    } else {
        let t = n - 1;
        first_tokens_compute(x, p, y, il, t as nat);
        let some = chunk_tokens_steps(x.w, il, 0, t as nat, x.tokens, row0, x.cap);
        let row = x.row(il, t as nat);
        let more = chunk_token_steps(x.w, il, 0, t, x.tokens[t], row, x.cap);
        let e = run(x.k, p, y, some);
        let f = run(x.k, p, e, more);
        run_concat(x.k, p, y, some, more);
        assert(holds(x.w, il as int, LayerSlot::FfnGateShexp));
        first_token_computes(x.k, p, e, x.w, il, t, x.tokens[t], row, x.cap);
        first_streams_go_on(x, il, t);
        assert(lasting(Buf::BHc) && lasting(Buf::BHcSplit) && lasting(Buf::BAttnNorm) && lasting(
            Buf::BHeads,
        ));
        assert((e.at)(Buf::BHc, t) == (y.at)(Buf::BHc, t));
        assert((e.at)(Buf::BHcSplit, t) == (y.at)(Buf::BHcSplit, t));
        assert((e.at)(Buf::BAttnNorm, t) == (y.at)(Buf::BAttnNorm, t));
        assert((e.at)(Buf::BHeads, t) == (y.at)(Buf::BHeads, t));
        assert forall|u: int| 0 <= u < n implies (#[trigger] (f.at)(Buf::BHcNext, u)) == x.streams(
            (il + 1) as nat,
            u,
        ) by {
            if u < t {
                first_token_keeps(
                    x.k,
                    p,
                    e,
                    x.w,
                    il,
                    t,
                    x.tokens[t],
                    row,
                    x.cap,
                    Buf::BHcNext,
                    u,
                );
                assert((e.at)(Buf::BHcNext, u) == x.streams((il + 1) as nat, u));
            }
        }
        assert forall|b: Buf, r: int|
            lasting(b) && !layer_bufs(il).contains(b) && b != Buf::BHcNext implies #[trigger] (
        f.at)(b, r) == (y.at)(b, r) by {
            first_token_keeps(x.k, p, e, x.w, il, t, x.tokens[t], row, x.cap, b, r);
            assert((e.at)(b, r) == (y.at)(b, r));
        }
    }
}

/// Before layer `l`, the first chunk holds the residual streams of its tokens, the layers that are
/// done keep what follows from them, and the others what they kept before.
pub open spec fn first_level<V>(x: First<V>, c: Memory<V>, l: nat) -> bool {
    &&& forall|t: int|
        0 <= t < x.tokens.len() ==> (#[trigger] (c.at)(Buf::BHc, t)) == x.streams(l, t)
    &&& forall|il: usize|
        il < N_LAYER ==> #[trigger] state_of(c, il) == if il < l {
            x.state(il)
        } else {
            state_of(x.m, il)
        }
    &&& l > 0 ==> (c.at)(Buf::CurHc, 0) == x.streams(l, x.tokens.len() - 1)
}

proof fn first_layer_in_parts<V>(x: First<V>, p: Seq<i32>, c: Memory<V>, il: usize)
    ensures
        ({
            let nc = x.tokens.len() as u32;
            let row0 = x.rows[il as int];
            let wide = hc_in_steps(batch_in(il, nc)) + batch_qkv_steps(il, 0, nc);
            let each = chunk_tokens_steps(x.w, il, 0, x.tokens.len(), x.tokens, row0, x.cap);
            let y = run(x.k, p, run(x.k, p, c, wide), batch_attention_steps(il, 0, nc));
            run(x.k, p, c, chunk_layer_steps(x.w, il, 0, x.tokens, row0, x.cap)) == exec(
                x.k,
                p,
                run(x.k, p, y, each),
                Step::Swap { a: Buf::BHc, b: Buf::BHcNext },
            )
        }),
{
    let nc = x.tokens.len() as u32;
    let row0 = x.rows[il as int];
    let wide = hc_in_steps(batch_in(il, nc)) + batch_qkv_steps(il, 0, nc);
    let att = batch_attention_steps(il, 0, nc);
    let each = chunk_tokens_steps(x.w, il, 0, x.tokens.len(), x.tokens, row0, x.cap);
    let swap = Step::Swap { a: Buf::BHc, b: Buf::BHcNext };
    let all = chunk_layer_steps(x.w, il, 0, x.tokens, row0, x.cap);
    assert(all =~= wide + att + each + seq![swap]);
    run_concat(x.k, p, c, wide, att);
    run_concat(x.k, p, c, wide + att, each);
    run_concat(x.k, p, c, wide + att + each, seq![swap]);
    run_push(x.k, p, run(x.k, p, c, wide + att + each), Seq::empty(), swap);
}

#[verifier::rlimit(40)]
#[verifier::spinoff_prover]
proof fn first_layer_computes<V>(x: First<V>, p: Seq<i32>, c: Memory<V>, il: usize)
    requires
        x.fits(),
        il < N_LAYER,
        first_level(x, c, il as nat),
    ensures
        first_level(
            x,
            run(
                x.k,
                p,
                c,
                chunk_layer_steps(x.w, il, 0, x.tokens, x.rows[il as int], x.cap),
            ),
            (il + 1) as nat,
        ),
{
    let nc = x.tokens.len() as u32;
    let row0 = x.rows[il as int];
    let wide = hc_in_steps(batch_in(il, nc)) + batch_qkv_steps(il, 0, nc);
    let each = chunk_tokens_steps(x.w, il, 0, x.tokens.len(), x.tokens, row0, x.cap);
    let swap = Step::Swap { a: Buf::BHc, b: Buf::BHcNext };
    let z = run(x.k, p, c, wide);
    let y = run(x.k, p, z, batch_attention_steps(il, 0, nc));
    let e = run(x.k, p, y, each);
    let f = exec(x.k, p, e, swap);
    first_layer_in_parts(x, p, c, il);
    assert forall|b: Buf, r: int| #[trigger] (f.at)(b, r) == if b == Buf::BHc {
        (e.at)(Buf::BHcNext, r)
    } else if b == Buf::BHcNext {
        (e.at)(Buf::BHc, r)
    } else {
        (e.at)(b, r)
    } by {
        reveal(exec);
    }
    assert(state_of(c, il) == state_of(x.m, il));
    assert forall|b: Buf| !is_chunk(b) implies #[trigger] (z.at)(b, 0) == (c.at)(b, 0) by {
        wide_steps_leave(il, 0, nc, b);
        run_leaves(x.k, p, c, wide, b, 0);
    }
    batch_attention_computes(x.k, p, z, il, nc);
    assert forall|t: int| 0 <= t < nc implies {
        &&& (#[trigger] (z.at)(Buf::BHc, t)) == x.streams(il as nat, t)
        &&& (z.at)(Buf::BHcSplit, t) == x.input(il, t)[0]
        &&& (z.at)(Buf::BAttnNorm, t) == x.input(il, t)[2]
        &&& (z.at)(Buf::BQ, t) == query(x.k, il, t, x.input(il, t)[2])
        &&& (z.at)(Buf::BKv, t) == key(x.k, il, t, x.input(il, t)[2])
    } by {
        assert((c.at)(Buf::BHc, t) == x.streams(il as nat, t));
        wide_rows_compute(x.k, p, c, il, nc, t);
    }
    let keys = Seq::new(nc as nat, |u: int| (z.at)(Buf::BKv, u));
    assert(keys =~= x.keys(il)) by {
        assert forall|u: int| 0 <= u < nc implies keys[u] == #[trigger] x.keys(il)[u] by {
            assert((z.at)(Buf::BHc, u) == x.streams(il as nat, u));
        }
    }
    assert((y.at)(Buf::RawCache(il), 0) == x.window(il));
    assert forall|t: int| 0 <= t < x.tokens.len() implies {
        &&& (#[trigger] (y.at)(Buf::BHc, t)) == x.streams(il as nat, t)
        &&& (y.at)(Buf::BHcSplit, t) == x.input(il, t)[0]
        &&& (y.at)(Buf::BAttnNorm, t) == x.input(il, t)[2]
        &&& (y.at)(Buf::BHeads, t) == x.heads(il, t)
    } by {
        assert((z.at)(Buf::BHc, t) == x.streams(il as nat, t));
        assert((y.at)(Buf::BHeads, t) == first_heads(
            x.k,
            il,
            t,
            (z.at)(Buf::BQ, t),
            x.window(il),
        ));
    }
    first_tokens_compute(x, p, y, il, x.tokens.len());
    assert forall|t: int| 0 <= t < x.tokens.len() implies (#[trigger] (f.at)(Buf::BHc, t))
        == x.streams((il + 1) as nat, t) by {
        assert((e.at)(Buf::BHcNext, t) == x.streams((il + 1) as nat, t));
    }
    assert forall|o: usize| o < N_LAYER implies #[trigger] state_of(f, o) == if o < il + 1 {
        x.state(o)
    } else {
        state_of(x.m, o)
    } by {
        assert(state_of(c, o) == state_of(c, o));
        if o != il {
            assert forall|b: Buf| #[trigger] layer_bufs(o).contains(b) implies (f.at)(b, 0) == (
            c.at)(b, 0) by {
                assert(lasting(b));
                assert(!layer_bufs(il).contains(b));
                assert((e.at)(b, 0) == (y.at)(b, 0));
                assert((y.at)(b, 0) == (z.at)(b, 0));
                assert((z.at)(b, 0) == (c.at)(b, 0));
            }
            same_state(f, c, o);
        }
    }
}

proof fn first_layers_compute<V>(x: First<V>, p: Seq<i32>, c: Memory<V>, l: nat)
    requires
        x.fits(),
        l <= N_LAYER,
        first_level(x, c, 0),
    ensures
        first_level(
            x,
            run(x.k, p, c, chunk_layers_steps(x.w, l, 0, x.tokens, x.rows, x.cap)),
            l,
        ),
    decreases l,
{
    if l == 0 {
        run_none(x.k, p, c);
    } else {
        let o = (l - 1) as nat;
        first_layers_compute(x, p, c, o);
        let some = chunk_layers_steps(x.w, o, 0, x.tokens, x.rows, x.cap);
        run_concat(
            x.k,
            p,
            c,
            some,
            chunk_layer_steps(x.w, o as usize, 0, x.tokens, x.rows[o as int], x.cap),
        );
        first_layer_computes(x, p, run(x.k, p, c, some), o as usize);
    }
}

/// The tokens of the first chunk, embedded.
proof fn first_chunk_starts<V>(x: First<V>, p: Seq<i32>, e: Memory<V>)
    requires
        x.fits(),
        x.tokens.len() <= p.len(),
        x.tokens == p.subrange(0, x.tokens.len() as int),
        forall|il: usize| il < N_LAYER ==> #[trigger] state_of(e, il) == state_of(x.m, il),
    ensures
        ({
            let nc = x.tokens.len() as int;
            let table = Weight::Model(ModelSlot::TokenEmbd);
            let c = run(
                x.k,
                p,
                e,
                seq![
                    Step::UploadTokens { first: 0, count: nc as usize },
                    Step::Need(table),
                    Step::EmbedTokens {
                        w: table,
                        tokens: Buf::Tokens,
                        out: Buf::BHc,
                        n_tok: nc as u32,
                    },
                ],
            );
            first_level(x, c, 0)
        }),
{
    let nc = x.tokens.len() as int;
    let table = Weight::Model(ModelSlot::TokenEmbd);
    let upload = Step::UploadTokens { first: 0, count: nc as usize };
    let need = Step::Need(table);
    let embed = Step::EmbedTokens {
        w: table,
        tokens: Buf::Tokens,
        out: Buf::BHc,
        n_tok: nc as u32,
    };
    let head = seq![upload, need, embed];
    let m1 = exec(x.k, p, e, upload);
    let m2 = exec(x.k, p, m1, need);
    let c = exec(x.k, p, m2, embed);
    run_none(x.k, p, e);
    run_push(x.k, p, e, Seq::empty(), upload);
    run_push(x.k, p, e, seq![upload], need);
    run_push(x.k, p, e, seq![upload, need], embed);
    assert(seq![upload] =~= Seq::empty().push(upload));
    assert(seq![upload, need] =~= seq![upload].push(need));
    assert(head =~= seq![upload, need].push(embed));
    assert(run(x.k, p, e, head) == c);
    assert forall|t: int| 0 <= t < nc implies (#[trigger] (c.at)(Buf::BHc, t)) == x.streams(
        0,
        t,
    ) by {
        reveal(exec);
        reveal(First::streams);
        assert(m2.tokens == x.tokens);
        assert(args(m2, embed, t) =~= Seq::<V>::empty());
    }
    assert forall|il: usize| il < N_LAYER implies #[trigger] state_of(c, il) == state_of(
        x.m,
        il,
    ) by {
        assert(state_of(e, il) == state_of(x.m, il));
        assert forall|b: Buf| #[trigger] layer_bufs(il).contains(b) implies (c.at)(b, 0) == (
        e.at)(b, 0) by {
            step_leaves(x.k, p, e, upload, b, 0);
            step_leaves(x.k, p, m1, need, b, 0);
            step_leaves(x.k, p, m2, embed, b, 0);
        }
        same_state(c, e, il);
    }
}

/// The first chunk of a prompt on a fresh session.
pub(crate) proof fn first_chunk_computes<V>(x: First<V>, p: Seq<i32>, e: Memory<V>)
    requires
        x.fits(),
        x.tokens.len() <= p.len(),
        x.tokens == p.subrange(0, x.tokens.len() as int),
        forall|il: usize| il < N_LAYER ==> #[trigger] state_of(e, il) == state_of(x.m, il),
    ensures
        first_level(
            x,
            run(
                x.k,
                p,
                e,
                chunk_steps(x.w, 0, p, 0, x.tokens.len() as int, x.rows, x.cap),
            ),
            N_LAYER as nat,
        ),
{
    let nc = x.tokens.len() as int;
    let table = Weight::Model(ModelSlot::TokenEmbd);
    let head = seq![
        Step::UploadTokens { first: 0, count: nc as usize },
        Step::Need(table),
        Step::EmbedTokens { w: table, tokens: Buf::Tokens, out: Buf::BHc, n_tok: nc as u32 },
    ];
    let body = chunk_layers_steps(x.w, N_LAYER as nat, 0, x.tokens, x.rows, x.cap);
    run_concat(x.k, p, e, head, body);
    first_chunk_starts(x, p, e);
    first_layers_compute(x, p, run(x.k, p, e, head), N_LAYER as nat);
}

} // verus!
