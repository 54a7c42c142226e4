//! What a prompt computes, next to what decoding its tokens one by one computes.
use vstd::prelude::*;

use crate::model::{ModelSlot, ModelWeights, Weight, N_LAYER, N_SWA};
use crate::session::agree::{
    agree, caches_agree, decoded, decoding_reads_the_caches_alone, endings_write_nothing,
    ends_agree, filled, filled_keeps, kept, lasting, layer_bufs, run_concat, run_leaves, run_none,
    run_push, shares, step_leaves, untouched, untouched_concat,
};
use crate::session::chunk_token::{
    chunk_token_keeps, input_steps, layer_keeps, sees_all, taken, token_agrees,
};
use crate::session::compressor::{next_row, rows_after};
use crate::session::decode::{embed_steps, layer_steps, layers_steps, output_steps};
use crate::session::laws::{
    after_calls, calls_advance, next_steps, prompts_count_like_their_tokens,
};
use crate::session::layer::{attn_in, batch_in, hc_in_steps};
use crate::session::meaning::{exec, is_chunk, kernel, run, Memory};
use crate::session::prefill::{
    all_rows_after, batch_qkv_steps, chunk_layer_steps, chunk_layers_steps, chunk_size, chunk_steps,
    chunk_token_steps, chunk_tokens_steps, chunks_steps, prefill_steps, rows_add_up,
};
use crate::session::state::{count_all, Counters};
use crate::session::step::{Buf, Step};
use crate::session::widen::{
    chunk_agrees, chunk_of, hc_in_widens, heads_steps, heads_widen, paired, row_agrees,
};

verus! {

/// Tokens to be decoded one after the other: the meaning of the kernels, the tensors, the size of
/// the caches, and the counters and the memory before them.
#[verifier::reject_recursive_types(V)]
pub struct Series<V> {
    pub k: spec_fn(Step, int, Seq<V>) -> V,
    pub w: ModelWeights,
    pub cap: int,
    pub c: Counters,
    pub tokens: Seq<i32>,
    pub m: Memory<V>,
}

impl<V> Series<V> {
    /// The position of the token with index `n`.
    pub open spec fn pos(self, n: int) -> u32 {
        (self.c.n_filled + n) as u32
    }

    /// The rows in the caches before the token with index `n`.
    pub open spec fn rows(self, n: int) -> Seq<u32> {
        all_rows_after(self.w, self.c.n_filled, n as nat, self.c.n_comp, self.cap)
    }

    /// The memory before the token with index `n`.
    #[verifier::opaque]
    pub open spec fn before(self, n: int) -> Memory<V> {
        decoded(self.k, self.w, self.cap, self.c, self.tokens.take(n), self.m)
    }

    /// The memory before layer `l` of the token with index `n`.
    #[verifier::opaque]
    pub open spec fn inside(self, n: int, l: nat) -> Memory<V> {
        let x = run(self.k, Seq::empty(), self.before(n), embed_steps(self.tokens[n]));
        run(
            self.k,
            Seq::empty(),
            x,
            layers_steps(self.w, l, self.pos(n), self.tokens[n], self.rows(n), self.cap),
        )
    }

    /// How many tokens layer `il` of a chunk has seen before layer `l`.
    pub open spec fn seen(self, l: nat, il: usize) -> int {
        if il < l {
            self.tokens.len() as int
        } else {
            0
        }
    }

    /// There is a position for every token, every layer has a shared expert, and no layer keeps
    /// more compressed rows than are attended to.
    pub open spec fn plain(self) -> bool {
        &&& self.c.n_comp.len() == N_LAYER
        &&& 0 < self.c.n_filled
        &&& self.c.n_filled + self.tokens.len() <= u32::MAX
        &&& shares(self.w)
        &&& forall|il: usize, n: nat|
            il < N_LAYER && n <= self.tokens.len() ==> sees_all(
                self.w,
                il,
                #[trigger] rows_after(
                    self.w,
                    il as int,
                    self.c.n_filled,
                    n,
                    self.c.n_comp[il as int],
                    self.cap,
                ),
            )
    }
}

/// The memory before the first token.
pub(crate) proof fn before_all<V>(x: Series<V>)
    ensures
        x.before(0) == x.m,
{
    reveal(Series::before);
    assert(x.tokens.take(0) =~= Seq::empty());
}

/// One layer after another.
pub(crate) proof fn next_layer<V>(x: Series<V>, n: int, l: nat)
    ensures
        x.inside(n, l + 1) == run(
            x.k,
            Seq::empty(),
            x.inside(n, l),
            layer_steps(x.w, l as usize, x.pos(n), x.tokens[n], x.rows(n)[l as int], x.cap),
        ),
{
    reveal(Series::inside);
    let e = run(x.k, Seq::empty(), x.before(n), embed_steps(x.tokens[n]));
    run_concat(
        x.k,
        Seq::empty(),
        e,
        layers_steps(x.w, l, x.pos(n), x.tokens[n], x.rows(n), x.cap),
        layer_steps(x.w, l as usize, x.pos(n), x.tokens[n], x.rows(n)[l as int], x.cap),
    );
}

/// The rows that a layer has after a token are those that it has before the next.
pub(crate) proof fn rows_follow<V>(x: Series<V>, n: int, il: usize)
    requires
        x.plain(),
        0 <= n < x.tokens.len(),
        il < N_LAYER,
    ensures
        x.rows(n)[il as int] == rows_after(
            x.w,
            il as int,
            x.c.n_filled,
            n as nat,
            x.c.n_comp[il as int],
            x.cap,
        ),
        sees_all(
            x.w,
            il,
            next_row(x.w, il as int, x.pos(n) as int, x.rows(n)[il as int], x.cap),
        ),
{
    let after = rows_after(
        x.w,
        il as int,
        x.c.n_filled,
        (n + 1) as nat,
        x.c.n_comp[il as int],
        x.cap,
    );
    assert(sees_all(x.w, il, after));
}

/// The caches of a layer are those of the token before up to the layer, and those of the token
/// after it.
pub(crate) proof fn layers_keep<V>(x: Series<V>, n: int, l: nat, il: usize, b: Buf)
    requires
        x.plain(),
        0 <= n < x.tokens.len(),
        l <= N_LAYER,
        il < N_LAYER,
        layer_bufs(il).contains(b),
    ensures
        l <= il ==> (x.inside(n, l).at)(b, 0) == (x.before(n).at)(b, 0),
        l > il ==> (x.inside(n, l).at)(b, 0) == (x.inside(n, (il + 1) as nat).at)(b, 0),
    decreases l,
{
    assert(lasting(b));
    if l == 0 {
        reveal(Series::inside);
        let e = run(x.k, Seq::empty(), x.before(n), embed_steps(x.tokens[n]));
        assert(untouched(embed_steps(x.tokens[n]), b));
        run_leaves(x.k, Seq::empty(), x.before(n), embed_steps(x.tokens[n]), b, 0);
        run_none(x.k, Seq::empty(), e);
    } else {
        let o = (l - 1) as nat;
        layers_keep(x, n, o, il, b);
        next_layer(x, n, o);
        if o != il {
            rows_follow(x, n, o as usize);
            assert(!layer_bufs(o as usize).contains(b));
            layer_keeps(
                x.k,
                Seq::empty(),
                x.inside(n, o),
                x.w,
                o as usize,
                x.pos(n),
                x.tokens[n],
                x.rows(n)[o as int],
                x.cap,
                b,
            );
        }
    }
}

/// After the last layer a token leaves what lasts as it is.
pub(crate) proof fn token_ends<V>(x: Series<V>, n: int)
    requires
        x.plain(),
        0 <= n < x.tokens.len(),
    ensures
        x.before(n + 1) == run(
            x.k,
            Seq::empty(),
            x.inside(n, N_LAYER as nat),
            output_steps() + seq![Step::ReadLogits, Step::Advance { n: 1 }],
        ),
        forall|b: Buf| #[trigger]
            lasting(b) ==> (x.before(n + 1).at)(b, 0) == (x.inside(n, N_LAYER as nat).at)(b, 0),
{
    reveal(Series::before);
    reveal(Series::inside);
    let done = x.tokens.take(n + 1);
    assert(done.drop_last() =~= x.tokens.take(n));
    assert(done.last() == x.tokens[n]);
    calls_advance(x.w, x.cap, x.c, x.tokens.take(n));
    let embed = embed_steps(x.tokens[n]);
    let layers = layers_steps(
        x.w,
        N_LAYER as nat,
        x.pos(n),
        x.tokens[n],
        x.rows(n),
        x.cap,
    );
    let end = output_steps() + seq![Step::ReadLogits, Step::Advance { n: 1 }];
    let all = next_steps(x.w, x.cap, after_calls(x.w, x.cap, x.c, x.tokens.take(n)), x.tokens[n]);
    assert(all =~= embed + layers + end);
    run_concat(x.k, Seq::empty(), x.before(n), embed + layers, end);
    run_concat(x.k, Seq::empty(), x.before(n), embed, layers);
    assert forall|b: Buf| #[trigger] lasting(b) implies (x.before(n + 1).at)(b, 0) == (x.inside(
        n,
        N_LAYER as nat,
    ).at)(b, 0) by {
        assert(untouched(output_steps(), b));
        untouched_concat(output_steps(), seq![Step::ReadLogits, Step::Advance { n: 1 }], b);
        run_leaves(x.k, Seq::empty(), x.inside(n, N_LAYER as nat), end, b, 0);
    }
}

/// What the steps over a chunk make of a row is what a token makes of it for itself.
pub(crate) proof fn chunk_rows_agree<V>(
    k: spec_fn(Step, int, Seq<V>) -> V,
    p: Seq<i32>,
    c: Memory<V>,
    d: Memory<V>,
    il: usize,
    first: u32,
    nc: u32,
    t: int,
)
    requires
        0 <= t < nc,
        first + t <= u32::MAX,
        (c.at)(Buf::BHc, t) == (d.at)(Buf::CurHc, 0),
    ensures
        row_agrees(
            run(k, p, c, hc_in_steps(batch_in(il, nc)) + batch_qkv_steps(il, first, nc)),
            t,
            run(k, Seq::empty(), d, input_steps(il, (first + t) as u32)),
            taken(),
        ),
{
    let q = Seq::<i32>::empty();
    let pos = (first + t) as u32;
    let one = hc_in_steps(attn_in(il));
    let wide = hc_in_steps(batch_in(il, nc));
    let s0 = set![Buf::CurHc];
    assert(row_agrees(c, t, d, s0));
    hc_in_widens(s0, il, nc, t);
    chunk_agrees(k, p, q, c, d, s0, wide, one, nc, t);
    let s1 = filled(s0, one, 0);
    heads_widen(s1, il, first, nc, t);
    let c1 = run(k, p, c, wide);
    let d1 = run(k, q, d, one);
    let heads = heads_steps(il, pos);
    chunk_agrees(k, p, q, c1, d1, s1, batch_qkv_steps(il, first, nc), heads, nc, t);
    run_concat(k, p, c, wide, batch_qkv_steps(il, first, nc));
    run_concat(k, q, d, one, heads);
    let s2 = filled(s1, heads, 0);
    assert forall|b: Buf| #[trigger] taken().contains(b) implies s2.contains(b) by {
        if s1.contains(b) {
            filled_keeps(s1, heads, 0, b);
        }
    }
}

/// The tokens of a chunk, one after the other, leave a layer as they leave it when they are
/// decoded.
#[verifier::rlimit(40)]
#[verifier::spinoff_prover]
pub(crate) proof fn chunk_tokens_agree<V>(
    x: Series<V>,
    p: Seq<i32>,
    z: Memory<V>,
    il: usize,
    n: nat,
)
    requires
        x.plain(),
        x.tokens.len() <= N_SWA,
        il < N_LAYER,
        n <= x.tokens.len(),
        agree(z, x.before(0), layer_bufs(il)),
        forall|t: int|
            0 <= t < x.tokens.len() ==> #[trigger] row_agrees(
                z,
                t,
                run(x.k, Seq::empty(), x.inside(t, il as nat), input_steps(il, x.pos(t))),
                taken(),
            ),
    ensures
        ({
            let e = run(
                x.k,
                p,
                z,
                chunk_tokens_steps(
                    x.w,
                    il,
                    x.c.n_filled,
                    n,
                    x.tokens,
                    x.c.n_comp[il as int],
                    x.cap,
                ),
            );
            &&& agree(e, x.before(n as int), layer_bufs(il))
            &&& forall|t: int|
                0 <= t < n ==> (#[trigger] (e.at)(Buf::BHcNext, t)) == (x.inside(
                    t,
                    (il + 1) as nat,
                ).at)(Buf::CurHc, 0)
            &&& forall|b: Buf, r: int|
                lasting(b) && !layer_bufs(il).contains(b) && b != Buf::BHcNext
                    ==> #[trigger] (e.at)(b, r) == (z.at)(b, r)
            &&& n > 0 ==> (e.at)(Buf::CurHc, 0) == (x.inside(n - 1, (il + 1) as nat).at)(
                Buf::CurHc,
                0,
            )
        }),
    decreases n,
{
    let first = x.c.n_filled;
    let row0 = x.c.n_comp[il as int];
    if n == 0 {
        run_none(x.k, p, z);
    } else {
        let t = n - 1;
        chunk_tokens_agree(x, p, z, il, t as nat);
        let some = chunk_tokens_steps(x.w, il, first, t as nat, x.tokens, row0, x.cap);
        let e = run(x.k, p, z, some);
        let row = rows_after(x.w, il as int, first, t as nat, row0, x.cap);
        let more = chunk_token_steps(x.w, il, first, t, x.tokens[t], row, x.cap);
        run_concat(x.k, p, z, some, more);
        rows_follow(x, t, il);
        let d = x.inside(t, il as nat);
        let y = run(x.k, Seq::empty(), d, input_steps(il, x.pos(t)));
        assert(row_agrees(z, t, y, taken()));
        assert forall|b: Buf| #[trigger] taken().contains(b) implies paired(b) && (e.at)(
            chunk_of(b),
            t,
        ) == (y.at)(b, 0) by {
            assert(lasting(chunk_of(b)));
            assert(!layer_bufs(il).contains(chunk_of(b)));
        }
        assert forall|b: Buf| #[trigger] layer_bufs(il).contains(b) implies (e.at)(b, 0) == (d.at)(
            b,
            0,
        ) by {
            layers_keep(x, t, il as nat, il, b);
        }
        token_agrees(
            x.k,
            p,
            Seq::empty(),
            e,
            d,
            x.w,
            il,
            first,
            t,
            x.tokens[t],
            row,
            x.cap,
        );
        next_layer(x, t, il as nat);
        token_ends(x, t);
        let f = run(x.k, p, e, more);
        assert forall|b: Buf| #[trigger] layer_bufs(il).contains(b) implies (f.at)(b, 0)
            == (x.before(n as int).at)(b, 0) by {
            layers_keep(x, t, N_LAYER as nat, il, b);
            assert(lasting(b));
        }
        assert forall|u: int| 0 <= u < n implies (#[trigger] (f.at)(Buf::BHcNext, u)) == (x.inside(
            u,
            (il + 1) as nat,
        ).at)(Buf::CurHc, 0) by {
            if u < t {
                chunk_token_keeps(
                    x.k,
                    p,
                    e,
                    x.w,
                    il,
                    first,
                    t,
                    x.tokens[t],
                    row,
                    x.cap,
                    Buf::BHcNext,
                    u,
                );
                assert((e.at)(Buf::BHcNext, u) == (x.inside(u, (il + 1) as nat).at)(Buf::CurHc, 0));
            }
        }
        assert forall|b: Buf, r: int|
            lasting(b) && !layer_bufs(il).contains(b) && b != Buf::BHcNext implies #[trigger] (
        f.at)(b, r) == (z.at)(b, r) by {
            chunk_token_keeps(x.k, p, e, x.w, il, first, t, x.tokens[t], row, x.cap, b, r);
            assert((e.at)(b, r) == (z.at)(b, r));
        }
    }
}

/// Before layer `l`, a chunk holds what its tokens hold when they are decoded: the residual streams
/// of each, the caches of the layers that are done as they are after the last token, and the others
/// as they are before the first.
pub open spec fn level<V>(x: Series<V>, c: Memory<V>, l: nat) -> bool {
    &&& forall|t: int|
        0 <= t < x.tokens.len() ==> (#[trigger] (c.at)(Buf::BHc, t)) == (x.inside(t, l).at)(
            Buf::CurHc,
            0,
        )
    &&& forall|il: usize|
        il < N_LAYER ==> #[trigger] agree(
            c,
            x.before(x.seen(l, il)),
            layer_bufs(il),
        )
    &&& l > 0 ==> (c.at)(Buf::CurHc, 0) == (x.inside(x.tokens.len() - 1, l).at)(Buf::CurHc, 0)
}

/// Steps over a chunk write buffers of chunks only.
pub(crate) proof fn wide_steps_leave(il: usize, first: u32, nc: u32, b: Buf)
    requires
        !is_chunk(b),
    ensures
        untouched(hc_in_steps(batch_in(il, nc)) + batch_qkv_steps(il, first, nc), b),
{
    untouched_concat(hc_in_steps(batch_in(il, nc)), batch_qkv_steps(il, first, nc), b);
}

pub(crate) proof fn chunk_layer_runs_in_parts<V>(x: Series<V>, p: Seq<i32>, c: Memory<V>, il: usize)
    requires
        0 < x.c.n_filled <= u32::MAX,
    ensures
        ({
            let first = x.c.n_filled;
            let nc = x.tokens.len() as u32;
            let row0 = x.c.n_comp[il as int];
            let wide = hc_in_steps(batch_in(il, nc)) + batch_qkv_steps(il, first as u32, nc);
            let each = chunk_tokens_steps(x.w, il, first, x.tokens.len(), x.tokens, row0, x.cap);
            run(x.k, p, c, chunk_layer_steps(x.w, il, first, x.tokens, row0, x.cap)) == exec(
                x.k,
                p,
                run(x.k, p, run(x.k, p, c, wide), each),
                Step::Swap { a: Buf::BHc, b: Buf::BHcNext },
            )
        }),
{
    let first = x.c.n_filled;
    let nc = x.tokens.len() as u32;
    let row0 = x.c.n_comp[il as int];
    let wide = hc_in_steps(batch_in(il, nc)) + batch_qkv_steps(il, first as u32, nc);
    let each = chunk_tokens_steps(x.w, il, first, x.tokens.len(), x.tokens, row0, x.cap);
    let swap = Step::Swap { a: Buf::BHc, b: Buf::BHcNext };
    let all = chunk_layer_steps(x.w, il, first, x.tokens, row0, x.cap);
    assert(all =~= wide + each + seq![swap]);
    run_concat(x.k, p, c, wide, each);
    run_concat(x.k, p, c, wide + each, seq![swap]);
    run_push(x.k, p, run(x.k, p, c, wide + each), Seq::empty(), swap);
}

#[verifier::rlimit(40)]
#[verifier::spinoff_prover]
pub(crate) proof fn chunk_layer_agrees<V>(x: Series<V>, p: Seq<i32>, c: Memory<V>, il: usize)
    requires
        x.plain(),
        0 < x.tokens.len() <= N_SWA,
        il < N_LAYER,
        level(x, c, il as nat),
    ensures
        level(
            x,
            run(
                x.k,
                p,
                c,
                chunk_layer_steps(
                    x.w,
                    il,
                    x.c.n_filled,
                    x.tokens,
                    x.c.n_comp[il as int],
                    x.cap,
                ),
            ),
            (il + 1) as nat,
        ),
{
    let first = x.c.n_filled;
    let nc = x.tokens.len() as u32;
    let row0 = x.c.n_comp[il as int];
    let wide = hc_in_steps(batch_in(il, nc)) + batch_qkv_steps(il, first as u32, nc);
    let each = chunk_tokens_steps(x.w, il, first, x.tokens.len(), x.tokens, row0, x.cap);
    let swap = Step::Swap { a: Buf::BHc, b: Buf::BHcNext };
    let z = run(x.k, p, c, wide);
    let e = run(x.k, p, z, each);
    let f = exec(x.k, p, e, swap);
    chunk_layer_runs_in_parts(x, p, c, il);
    assert forall|b: Buf, r: int| #[trigger] (f.at)(b, r) == if b == Buf::BHc {
        (e.at)(Buf::BHcNext, r)
    } else if b == Buf::BHcNext {
        (e.at)(Buf::BHc, r)
    } else {
        (e.at)(b, r)
    } by {
        reveal(exec);
    }
    assert forall|t: int| 0 <= t < x.tokens.len() implies #[trigger] row_agrees(
        z,
        t,
        run(x.k, Seq::empty(), x.inside(t, il as nat), input_steps(il, x.pos(t))),
        taken(),
    ) by {
        assert((c.at)(Buf::BHc, t) == (x.inside(t, il as nat).at)(Buf::CurHc, 0));
        chunk_rows_agree(x.k, p, c, x.inside(t, il as nat), il, first as u32, nc, t);
    }
    assert forall|b: Buf| !is_chunk(b) implies #[trigger] (z.at)(b, 0) == (c.at)(b, 0) by {
        wide_steps_leave(il, first as u32, nc, b);
        run_leaves(x.k, p, c, wide, b, 0);
    }
    assert(agree(c, x.before(x.seen(il as nat, il)), layer_bufs(il)));
    assert(agree(z, x.before(0), layer_bufs(il)));
    chunk_tokens_agree(x, p, z, il, x.tokens.len());
    let n = x.tokens.len() as int;
    assert forall|t: int| 0 <= t < n implies (#[trigger] (f.at)(Buf::BHc, t)) == (x.inside(
        t,
        (il + 1) as nat,
    ).at)(Buf::CurHc, 0) by {
        assert((e.at)(Buf::BHcNext, t) == (x.inside(t, (il + 1) as nat).at)(Buf::CurHc, 0));
    }
    assert forall|o: usize| o < N_LAYER implies #[trigger] agree(
        f,
        x.before(x.seen((il + 1) as nat, o)),
        layer_bufs(o),
    ) by {
        assert(agree(c, x.before(x.seen(il as nat, o)), layer_bufs(o)));
        assert forall|b: Buf| #[trigger] layer_bufs(o).contains(b) implies (f.at)(b, 0) == (
        x.before(x.seen((il + 1) as nat, o)).at)(b, 0) by {
            assert((f.at)(b, 0) == (e.at)(b, 0));
            if o != il {
                assert(lasting(b));
                assert(!layer_bufs(il).contains(b));
                assert((e.at)(b, 0) == (z.at)(b, 0));
                assert((z.at)(b, 0) == (c.at)(b, 0));
            }
        }
    }
}

pub(crate) proof fn chunk_layers_agree<V>(x: Series<V>, p: Seq<i32>, c: Memory<V>, l: nat)
    requires
        x.plain(),
        0 < x.tokens.len() <= N_SWA,
        l <= N_LAYER,
        level(x, c, 0),
    ensures
        level(
            x,
            run(
                x.k,
                p,
                c,
                chunk_layers_steps(x.w, l, x.c.n_filled, x.tokens, x.c.n_comp, x.cap),
            ),
            l,
        ),
    decreases l,
{
    if l == 0 {
        run_none(x.k, p, c);
    } else {
        let o = (l - 1) as nat;
        chunk_layers_agree(x, p, c, o);
        let some = chunk_layers_steps(x.w, o, x.c.n_filled, x.tokens, x.c.n_comp, x.cap);
        run_concat(
            x.k,
            p,
            c,
            some,
            chunk_layer_steps(
                x.w,
                o as usize,
                x.c.n_filled,
                x.tokens,
                x.c.n_comp[o as int],
                x.cap,
            ),
        );
        chunk_layer_agrees(x, p, run(x.k, p, c, some), o as usize);
    }
}

/// A chunk leaves the caches, and the residual streams of its last token, as decoding its tokens
/// leaves them.
#[verifier::rlimit(40)]
#[verifier::spinoff_prover]
pub(crate) proof fn whole_chunk_agrees<V>(
    x: Series<V>,
    prompt: Seq<i32>,
    at: int,
    m: Memory<V>,
)
    requires
        x.plain(),
        0 < x.tokens.len() <= N_SWA,
        0 <= at,
        at + x.tokens.len() <= prompt.len(),
        prompt.len() <= u32::MAX,
        x.tokens == prompt.subrange(at, at + x.tokens.len()),
        caches_agree(m, x.m),
    ensures
        ({
            let e = run(
                x.k,
                prompt,
                m,
                chunk_steps(
                    x.w,
                    x.c.n_filled,
                    prompt,
                    at,
                    x.tokens.len() as int,
                    x.c.n_comp,
                    x.cap,
                ),
            );
            &&& caches_agree(e, x.before(x.tokens.len() as int))
            &&& (e.at)(Buf::CurHc, 0) == (x.inside(x.tokens.len() - 1, N_LAYER as nat).at)(
                Buf::CurHc,
                0,
            )
        }),
{
    let nc = x.tokens.len() as int;
    let table = Weight::Model(ModelSlot::TokenEmbd);
    let upload = Step::UploadTokens { first: at as usize, count: nc as usize };
    let need = Step::Need(table);
    let embed = Step::EmbedTokens {
        w: table,
        tokens: Buf::Tokens,
        out: Buf::BHc,
        n_tok: nc as u32,
    };
    let head = seq![upload, need, embed];
    let body = chunk_layers_steps(
        x.w,
        N_LAYER as nat,
        x.c.n_filled,
        x.tokens,
        x.c.n_comp,
        x.cap,
    );
    run_concat(x.k, prompt, m, head, body);
    let m1 = exec(x.k, prompt, m, upload);
    let m2 = exec(x.k, prompt, m1, need);
    let c = exec(x.k, prompt, m2, embed);
    run_push(x.k, prompt, m, Seq::empty(), upload);
    run_push(x.k, prompt, m, seq![upload], need);
    run_push(x.k, prompt, m, seq![upload, need], embed);
    assert(seq![upload, need] =~= seq![upload].push(need));
    assert(head =~= seq![upload, need].push(embed));
    assert(run(x.k, prompt, m, head) == c);
    assert forall|t: int| 0 <= t < nc implies (#[trigger] (c.at)(Buf::BHc, t)) == (x.inside(
        t,
        0,
    ).at)(Buf::CurHc, 0) by {
        reveal(exec);
        reveal(Series::inside);
        let one = Step::EmbedToken { w: table, out: Buf::CurHc, token: x.tokens[t] as u32 };
        let b = x.before(t);
        run_none(x.k, Seq::empty(), run(x.k, Seq::empty(), b, embed_steps(x.tokens[t])));
        run_push(x.k, Seq::empty(), b, Seq::empty(), need);
        run_push(x.k, Seq::empty(), b, seq![need], one);
        assert(embed_steps(x.tokens[t]) =~= seq![need].push(one));
        assert(m2.tokens == x.tokens);
        assert(kernel(embed, m2.tokens, t) == kernel(one, b.tokens, 0));
    }
    before_all(x);
    assert forall|il: usize| il < N_LAYER implies #[trigger] agree(
        c,
        x.before(x.seen(0, il)),
        layer_bufs(il),
    ) by {
        assert(agree(m, x.m, layer_bufs(il)));
        assert forall|b: Buf| #[trigger] layer_bufs(il).contains(b) implies (c.at)(b, 0) == (
        x.before(x.seen(0, il)).at)(b, 0) by {
            step_leaves(x.k, prompt, m, upload, b, 0);
            step_leaves(x.k, prompt, m1, need, b, 0);
            step_leaves(x.k, prompt, m2, embed, b, 0);
        }
    }
    assert(level(x, c, 0));
    chunk_layers_agree(x, prompt, c, N_LAYER as nat);
    let e = run(x.k, prompt, c, body);
    assert forall|il: usize| il < N_LAYER implies #[trigger] agree(
        e,
        x.before(nc),
        layer_bufs(il),
    ) by {
        assert(agree(e, x.before(x.seen(N_LAYER as nat, il)), layer_bufs(il)));
    }
}

/// Tokens after tokens.
pub(crate) proof fn decoded_concat<V>(
    k: spec_fn(Step, int, Seq<V>) -> V,
    w: ModelWeights,
    cap: int,
    c: Counters,
    a: Seq<i32>,
    b: Seq<i32>,
    m: Memory<V>,
)
    ensures
        after_calls(w, cap, c, a + b) == after_calls(w, cap, after_calls(w, cap, c, a), b),
        decoded(k, w, cap, c, a + b, m) == decoded(
            k,
            w,
            cap,
            after_calls(w, cap, c, a),
            b,
            decoded(k, w, cap, c, a, m),
        ),
    decreases b.len(),
{
    if b.len() == 0 {
        assert(a + b =~= a);
    } else {
        assert((a + b).drop_last() =~= a + b.drop_last());
        decoded_concat(k, w, cap, c, a, b.drop_last(), m);
    }
}

impl<V> Series<V> {
    /// The `nc` tokens from the one with index `at` on.
    pub open spec fn part(self, at: int, nc: int) -> Series<V> {
        Series {
            c: after_calls(self.w, self.cap, self.c, self.tokens.take(at)),
            tokens: self.tokens.subrange(at, at + nc),
            m: self.before(at),
            ..self
        }
    }
}

pub(crate) proof fn part_counts<V>(x: Series<V>, at: int, nc: int)
    requires
        x.plain(),
        0 <= at,
        0 < nc,
        at + nc <= x.tokens.len(),
    ensures
        x.part(at, nc).c.n_filled == x.c.n_filled + at,
        x.part(at, nc).c.n_comp == x.rows(at),
        x.part(at, nc).plain(),
        forall|n: int|
            0 <= n <= nc ==> #[trigger] x.part(at, nc).rows(n) == x.rows(at + n),
{
    let y = x.part(at, nc);
    calls_advance(x.w, x.cap, x.c, x.tokens.take(at));
    assert forall|il: usize, n: nat| il < N_LAYER && n <= nc implies sees_all(
        y.w,
        il,
        #[trigger] rows_after(y.w, il as int, y.c.n_filled, n, y.c.n_comp[il as int], y.cap),
    ) by {
        rows_add_up(
            x.w,
            il as int,
            x.c.n_filled,
            at as nat,
            n,
            x.c.n_comp[il as int],
            x.cap,
        );
        assert(sees_all(
            x.w,
            il,
            rows_after(
                x.w,
                il as int,
                x.c.n_filled,
                (at + n) as nat,
                x.c.n_comp[il as int],
                x.cap,
            ),
        ));
    }
    assert forall|n: int| 0 <= n <= nc implies #[trigger] y.rows(n) == x.rows(at + n) by {
        assert forall|il: int| 0 <= il < N_LAYER implies #[trigger] y.rows(n)[il] == x.rows(
            at + n,
        )[il] by {
            rows_add_up(
                x.w,
                il,
                x.c.n_filled,
                at as nat,
                n as nat,
                x.c.n_comp[il],
                x.cap,
            );
        }
        assert(y.rows(n) =~= x.rows(at + n));
    }
}

pub(crate) proof fn part_runs<V>(x: Series<V>, at: int, nc: int, n: int)
    requires
        x.plain(),
        0 <= at,
        0 < nc,
        at + nc <= x.tokens.len(),
        0 <= n <= nc,
    ensures
        x.part(at, nc).before(n) == x.before(at + n),
        n < nc ==> forall|l: nat| #[trigger] x.part(at, nc).inside(n, l) == x.inside(at + n, l),
{
    reveal(Series::before);
    reveal(Series::inside);
    let y = x.part(at, nc);
    part_counts(x, at, nc);
    assert(x.tokens.take(at + n) =~= x.tokens.take(at) + y.tokens.take(n));
    decoded_concat(x.k, x.w, x.cap, x.c, x.tokens.take(at), y.tokens.take(n), x.m);
    assert(y.rows(n) == x.rows(at + n));
    assert(y.pos(n) == x.pos(at + n));
}

/// The chunks of a prompt leave the caches, and the residual streams of its last token, as decoding
/// its tokens leaves them.
#[verifier::rlimit(40)]
#[verifier::spinoff_prover]
pub(crate) proof fn chunks_agree<V>(x: Series<V>, at: int, e: Memory<V>)
    requires
        x.plain(),
        0 <= at < x.tokens.len(),
        caches_agree(e, x.before(at)),
    ensures
        ({
            let f = run(
                x.k,
                x.tokens,
                e,
                chunks_steps(x.w, x.c.n_filled, x.tokens, at, x.c.n_comp, x.cap),
            );
            let n = x.tokens.len() as int;
            &&& caches_agree(f, x.before(n))
            &&& (f.at)(Buf::CurHc, 0) == (x.inside(n - 1, N_LAYER as nat).at)(Buf::CurHc, 0)
        }),
    decreases x.tokens.len() - at,
{
    let n = x.tokens.len() as int;
    let nc = chunk_size(n, at);
    let start = x.c.n_filled;
    let y = x.part(at, nc);
    let one = chunk_steps(x.w, start + at, x.tokens, at, nc, x.rows(at), x.cap);
    let more = chunks_steps(x.w, start, x.tokens, at + nc, x.c.n_comp, x.cap);
    part_counts(x, at, nc);
    part_runs(x, at, nc, nc);
    part_runs(x, at, nc, nc - 1);
    whole_chunk_agrees(y, x.tokens, at, e);
    run_concat(x.k, x.tokens, e, one, more);
    run_none(x.k, x.tokens, run(x.k, x.tokens, e, one));
    if at + nc < n {
        chunks_agree(x, at + nc, run(x.k, x.tokens, e, one));
    } else {
        assert(y.inside(nc - 1, N_LAYER as nat) == x.inside(n - 1, N_LAYER as nat));
    }
}

/// No cache ever holds fewer rows than before.
pub(crate) proof fn rows_never_shrink(
    w: ModelWeights,
    il: int,
    pos: int,
    n: nat,
    more: nat,
    row: u32,
    cap: int,
)
    requires
        cap <= u32::MAX,
    ensures
        rows_after(w, il, pos, n, row, cap) <= rows_after(w, il, pos, n + more, row, cap),
    decreases more,
{
    if more > 0 {
        rows_never_shrink(w, il, pos, n, (more - 1) as nat, row, cap);
    }
}

pub(crate) proof fn prompt_in_parts<V>(x: Series<V>)
    requires
        x.tokens.len() > 0,
    ensures
        ({
            let n = x.tokens.len();
            let alloc = Step::AllocChunk { tokens: chunk_size(n as int, 0) as usize };
            let chunks = chunks_steps(x.w, x.c.n_filled, x.tokens, 0, x.c.n_comp, x.cap);
            let last = seq![Step::Advance { n: n as usize }, Step::ReadLogits];
            run(
                x.k,
                x.tokens,
                x.m,
                prefill_steps(x.w, x.c.n_filled, x.tokens, x.c.n_comp, x.cap),
            ) == run(
                x.k,
                x.tokens,
                run(x.k, x.tokens, exec(x.k, x.tokens, x.m, alloc), chunks),
                output_steps() + last,
            )
        }),
{
    let n = x.tokens.len();
    let alloc = Step::AllocChunk { tokens: chunk_size(n as int, 0) as usize };
    let chunks = chunks_steps(x.w, x.c.n_filled, x.tokens, 0, x.c.n_comp, x.cap);
    let last = seq![Step::Advance { n: n as usize }, Step::ReadLogits];
    let all = prefill_steps(x.w, x.c.n_filled, x.tokens, x.c.n_comp, x.cap);
    assert(all =~= seq![alloc] + chunks + (output_steps() + last));
    run_push(x.k, x.tokens, x.m, Seq::empty(), alloc);
    run_concat(x.k, x.tokens, x.m, seq![alloc] + chunks, output_steps() + last);
    run_concat(x.k, x.tokens, x.m, seq![alloc], chunks);
}

/// What the output reads, and the caches, are after the last layer what they are after the last
/// token.
pub(crate) proof fn ends_meet<V>(x: Series<V>, f: Memory<V>)
    requires
        x.plain(),
        x.tokens.len() > 0,
        caches_agree(f, x.before(x.tokens.len() as int)),
        (f.at)(Buf::CurHc, 0) == (x.inside(x.tokens.len() - 1, N_LAYER as nat).at)(Buf::CurHc, 0),
    ensures
        agree(f, x.inside(x.tokens.len() - 1, N_LAYER as nat), kept()),
{
    let n = x.tokens.len() as int;
    let d = x.inside(n - 1, N_LAYER as nat);
    token_ends(x, n - 1);
    assert forall|b: Buf| #[trigger] kept().contains(b) implies (f.at)(b, 0) == (d.at)(b, 0) by {
        if b != Buf::CurHc {
            let il = choose|il: usize| il < N_LAYER && #[trigger] layer_bufs(il).contains(b);
            assert(agree(f, x.before(n), layer_bufs(il)));
            assert(lasting(b));
        }
    }
}

#[verifier::rlimit(40)]
#[verifier::spinoff_prover]
pub(crate) proof fn prompt_agrees<V>(x: Series<V>)
    requires
        x.plain(),
        x.tokens.len() > 0,
    ensures
        ({
            let e = run(
                x.k,
                x.tokens,
                x.m,
                prefill_steps(x.w, x.c.n_filled, x.tokens, x.c.n_comp, x.cap),
            );
            let d = x.before(x.tokens.len() as int);
            &&& (e.at)(Buf::Logits, 0) == (d.at)(Buf::Logits, 0)
            &&& caches_agree(e, d)
        }),
{
    let n = x.tokens.len() as int;
    let alloc = Step::AllocChunk { tokens: chunk_size(n, 0) as usize };
    let chunks = chunks_steps(x.w, x.c.n_filled, x.tokens, 0, x.c.n_comp, x.cap);
    let last = seq![Step::Advance { n: n as usize }, Step::ReadLogits];
    let then = seq![Step::ReadLogits, Step::Advance { n: 1 }];
    let e = exec(x.k, x.tokens, x.m, alloc);
    prompt_in_parts(x);
    before_all(x);
    assert forall|il: usize| il < N_LAYER implies #[trigger] agree(
        e,
        x.before(0),
        layer_bufs(il),
    ) by {
        assert forall|b: Buf| #[trigger] layer_bufs(il).contains(b) implies (e.at)(b, 0) == (
        x.m.at)(b, 0) by {
            step_leaves(x.k, x.tokens, x.m, alloc, b, 0);
        }
    }
    chunks_agree(x, 0, e);
    let f = run(x.k, x.tokens, e, chunks);
    let d = x.inside(n - 1, N_LAYER as nat);
    ends_meet(x, f);
    endings_write_nothing(last);
    endings_write_nothing(then);
    ends_agree(x.k, x.tokens, Seq::empty(), f, d, last, then);
    token_ends(x, n - 1);
}

/// For any meaning of the kernels, taking a prompt gives the logits that decoding its tokens one
/// after the other gives for the last of them, and leaves the same in the caches.
///
/// The session is not fresh: the first chunk of a fresh session attends to the window alone. After
/// the prompt no layer keeps more compressed rows than its indexer picks: a prompt attends to all
/// of them. And every layer has a shared expert.
pub proof fn prompts_compute_what_their_tokens_compute<V>(
    k: spec_fn(Step, int, Seq<V>) -> V,
    w: ModelWeights,
    cap: int,
    c: Counters,
    tokens: Seq<i32>,
    m: Memory<V>,
)
    requires
        c.n_comp.len() == N_LAYER,
        0 < c.n_filled,
        0 < tokens.len(),
        c.n_filled + tokens.len() <= u32::MAX,
        cap <= u32::MAX,
        shares(w),
        forall|il: usize|
            il < N_LAYER ==> #[trigger] sees_all(
                w,
                il,
                rows_after(w, il as int, c.n_filled, tokens.len(), c.n_comp[il as int], cap),
            ),
    ensures
        ({
            let e = run(k, tokens, m, prefill_steps(w, c.n_filled, tokens, c.n_comp, cap));
            let d = decoded(k, w, cap, c, tokens, m);
            &&& (e.at)(Buf::Logits, 0) == (d.at)(Buf::Logits, 0)
            &&& caches_agree(e, d)
        }),
{
    let x = Series { k, w, cap, c, tokens, m };
    assert forall|il: usize, n: nat| il < N_LAYER && n <= tokens.len() implies sees_all(
        w,
        il,
        #[trigger] rows_after(w, il as int, c.n_filled, n, c.n_comp[il as int], cap),
    ) by {
        let row = c.n_comp[il as int];
        rows_never_shrink(w, il as int, c.n_filled, n, (tokens.len() - n) as nat, row, cap);
        assert(sees_all(w, il, rows_after(w, il as int, c.n_filled, tokens.len(), row, cap)));
    }
    prompt_agrees(x);
    assert(tokens.take(tokens.len() as int) =~= tokens);
    reveal(Series::before);
}

/// Under the same conditions, tokens that are decoded after the prompt give the logits, and leave
/// the caches, that they give and leave where the tokens of the prompt were decoded one by one.
pub proof fn decoding_goes_on_after_a_prompt<V>(
    k: spec_fn(Step, int, Seq<V>) -> V,
    w: ModelWeights,
    cap: int,
    c: Counters,
    tokens: Seq<i32>,
    m: Memory<V>,
    more: Seq<i32>,
)
    requires
        c.n_comp.len() == N_LAYER,
        0 < c.n_filled,
        0 < tokens.len(),
        c.n_filled + tokens.len() <= u32::MAX,
        cap <= u32::MAX,
        shares(w),
        0 < more.len(),
        forall|il: usize|
            il < N_LAYER ==> #[trigger] sees_all(
                w,
                il,
                rows_after(w, il as int, c.n_filled, tokens.len(), c.n_comp[il as int], cap),
            ),
    ensures
        ({
            let e = run(k, tokens, m, prefill_steps(w, c.n_filled, tokens, c.n_comp, cap));
            let then = count_all(c, prefill_steps(w, c.n_filled, tokens, c.n_comp, cap));
            let x = decoded(k, w, cap, then, more, e);
            let y = decoded(k, w, cap, c, tokens + more, m);
            &&& (x.at)(Buf::Logits, 0) == (y.at)(Buf::Logits, 0)
            &&& caches_agree(x, y)
        }),
{
    prompts_compute_what_their_tokens_compute(k, w, cap, c, tokens, m);
    prompts_count_like_their_tokens(w, cap, c, tokens);
    decoded_concat(k, w, cap, c, tokens, more, m);
    decoding_reads_the_caches_alone(
        k,
        w,
        cap,
        after_calls(w, cap, c, tokens),
        more,
        run(k, tokens, m, prefill_steps(w, c.n_filled, tokens, c.n_comp, cap)),
        decoded(k, w, cap, c, tokens, m),
    );
}

} // verus!
