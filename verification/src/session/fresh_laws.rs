//! What a prompt on a fresh session computes.
use vstd::prelude::*;

use crate::model::{ModelWeights, N_LAYER};
use crate::session::agree::{
    agree, caches_agree, decoded, endings_write_nothing, ends_agree, layer_bufs, run_concat,
    run_leaves, run_none, shares, step_leaves, untouched,
};
use crate::session::chunk_token::sees_all;
use crate::session::compressor::rows_after;
use crate::session::decode::output_steps;
use crate::session::forward::{logits_of, state_of};
use crate::session::forward_first::{first_chunk_computes, first_level, First};
use crate::session::forward_laws::same_state;
use crate::session::forward_parts::output_computes;
use crate::session::laws::{calls_advance, prompts_count_like_their_tokens};
use crate::session::meaning::{exec, run, Memory};
use crate::session::prefill::{
    all_rows_after, chunk_size, chunk_steps, chunks_steps, prefill_steps, rows_add_up,
};
use crate::session::results::{
    before_all, ends_meet, part_counts, part_runs, prompt_in_parts, rows_never_shrink, token_ends,
    whole_chunk_agrees, Series,
};
use crate::session::state::{count_all, Counters};
use crate::session::step::{Buf, Step};

verus! {

/// Where the states of all layers are the same, the caches are.
proof fn same_caches<V>(m: Memory<V>, n: Memory<V>)
    requires
        forall|il: usize| il < N_LAYER ==> #[trigger] state_of(m, il) == state_of(n, il),
    ensures
        caches_agree(m, n),
{
    assert forall|il: usize| il < N_LAYER implies #[trigger] agree(m, n, layer_bufs(il)) by {
        assert(state_of(m, il) == state_of(n, il));
    }
}

/// The steps that end a prompt give the logits of the last token and leave the caches.
pub(crate) proof fn prompt_ends<V>(
    k: spec_fn(Step, int, Seq<V>) -> V,
    p: Seq<i32>,
    m: Memory<V>,
    n: usize,
)
    ensures
        ({
            let e = run(k, p, m, output_steps() + seq![Step::Advance { n }, Step::ReadLogits]);
            &&& (e.at)(Buf::Logits, 0) == logits_of(k, (m.at)(Buf::CurHc, 0))
            &&& forall|il: usize| il < N_LAYER ==> #[trigger] state_of(e, il) == state_of(m, il)
        }),
{
    let last = seq![Step::Advance { n }, Step::ReadLogits];
    let f = run(k, p, m, output_steps());
    let e = run(k, p, f, last);
    run_concat(k, p, m, output_steps(), last);
    output_computes(k, p, m);
    assert(untouched(last, Buf::Logits));
    run_leaves(k, p, f, last, Buf::Logits, 0);
    assert forall|il: usize| il < N_LAYER implies #[trigger] state_of(e, il) == state_of(
        m,
        il,
    ) by {
        assert forall|b: Buf| #[trigger] layer_bufs(il).contains(b) implies (e.at)(b, 0) == (
        m.at)(b, 0) by {
            assert(untouched(output_steps(), b));
            assert(untouched(last, b));
            run_leaves(k, p, m, output_steps(), b, 0);
            run_leaves(k, p, f, last, b, 0);
        }
        same_state(e, m, il);
    }
}

/// The memory after the first chunk of a prompt on a fresh session.
pub(crate) proof fn first_chunk_of<V>(x: First<V>, p: Seq<i32>)
    requires
        x.fits(),
        x.rows.len() == N_LAYER,
        0 < p.len() <= u32::MAX,
        x.tokens.len() == chunk_size(p.len() as int, 0),
        x.tokens == p.subrange(0, x.tokens.len() as int),
    ensures
        ({
            let nc = x.tokens.len() as int;
            let alloc = Step::AllocChunk { tokens: nc as usize };
            let e = exec(x.k, p, x.m, alloc);
            let f = run(x.k, p, e, chunk_steps(x.w, 0, p, 0, nc, x.rows, x.cap));
            &&& first_level(x, f, N_LAYER as nat)
            &&& run(x.k, p, e, chunks_steps(x.w, 0, p, 0, x.rows, x.cap)) == run(
                x.k,
                p,
                f,
                chunks_steps(x.w, 0, p, nc, x.rows, x.cap),
            )
        }),
{
    let nc = x.tokens.len() as int;
    let alloc = Step::AllocChunk { tokens: nc as usize };
    let e = exec(x.k, p, x.m, alloc);
    assert forall|il: usize| il < N_LAYER implies #[trigger] state_of(e, il) == state_of(
        x.m,
        il,
    ) by {
        assert forall|b: Buf| #[trigger] layer_bufs(il).contains(b) implies (e.at)(b, 0) == (
        x.m.at)(b, 0) by {
            step_leaves(x.k, p, x.m, alloc, b, 0);
        }
        same_state(e, x.m, il);
    }
    first_chunk_computes(x, p, e);
    assert(all_rows_after(x.w, 0, 0, x.rows, x.cap) =~= x.rows);
    run_concat(
        x.k,
        p,
        e,
        chunk_steps(x.w, 0, p, 0, nc, x.rows, x.cap),
        chunks_steps(x.w, 0, p, nc, x.rows, x.cap),
    );
}

/// For any meaning of the kernels, a prompt of no more tokens than the window has rows gives, on a
/// fresh session, the logits of its last token, whose residual streams have gone through all
/// layers: in each of them, every token attends by its own query to the keys of the prompt. And
/// each layer keeps the window of those keys and the compressed rows of the tokens.
pub proof fn short_prompts_compute_the_forward_pass<V>(
    k: spec_fn(Step, int, Seq<V>) -> V,
    w: ModelWeights,
    cap: int,
    rows: Seq<u32>,
    tokens: Seq<i32>,
    m: Memory<V>,
)
    requires
        rows.len() == N_LAYER,
        0 < tokens.len() <= 128,
        shares(w),
    ensures
        ({
            let x = First { k, w, cap, rows, tokens, m };
            let e = run(k, tokens, m, prefill_steps(w, 0, tokens, rows, cap));
            &&& (e.at)(Buf::Logits, 0) == logits_of(k, x.streams(43, tokens.len() - 1))
            &&& forall|il: usize| il < 43 ==> #[trigger] state_of(e, il) == x.state(il)
        }),
{
    let x = First { k, w, cap, rows, tokens, m };
    let s = Series { k, w, cap, c: Counters { n_filled: 0, n_comp: rows }, tokens, m };
    let nc = tokens.len() as int;
    let e = exec(k, tokens, m, Step::AllocChunk { tokens: nc as usize });
    let f = run(k, tokens, e, chunk_steps(w, 0, tokens, 0, nc, rows, cap));
    assert(tokens.subrange(0, nc) =~= tokens);
    first_chunk_of(x, tokens);
    run_none(k, tokens, f);
    prompt_in_parts(s);
    prompt_ends(k, tokens, f, tokens.len() as usize);
    assert forall|il: usize| il < 43 implies #[trigger] state_of(
        run(k, tokens, m, prefill_steps(w, 0, tokens, rows, cap)),
        il,
    ) == x.state(il) by {
        assert(state_of(f, il) == x.state(il));
    }
}

/// The chunks of a prompt from one that is not the first on.
#[verifier::rlimit(40)]
#[verifier::spinoff_prover]
proof fn later_chunks_agree<V>(
    x: Series<V>,
    p: Seq<i32>,
    rows: Seq<u32>,
    at: int,
    e: Memory<V>,
)
    requires
        x.plain(),
        rows.len() == N_LAYER,
        x.c.n_filled + x.tokens.len() == p.len(),
        x.tokens == p.subrange(x.c.n_filled, p.len() as int),
        x.c.n_comp == all_rows_after(x.w, 0, x.c.n_filled as nat, rows, x.cap),
        0 <= at < x.tokens.len(),
        caches_agree(e, x.before(at)),
    ensures
        ({
            let f = run(x.k, p, e, chunks_steps(x.w, 0, p, x.c.n_filled + at, rows, x.cap));
            let n = x.tokens.len() as int;
            &&& caches_agree(f, x.before(n))
            &&& (f.at)(Buf::CurHc, 0) == (x.inside(n - 1, N_LAYER as nat).at)(Buf::CurHc, 0)
        }),
    decreases x.tokens.len() - at,
{
    let n = x.tokens.len() as int;
    let nc = chunk_size(n, at);
    let first = x.c.n_filled + at;
    let y = x.part(at, nc);
    let one = chunk_steps(x.w, first, p, first, nc, x.rows(at), x.cap);
    let more = chunks_steps(x.w, 0, p, first + nc, rows, x.cap);
    part_counts(x, at, nc);
    part_runs(x, at, nc, nc);
    part_runs(x, at, nc, nc - 1);
    assert(y.tokens =~= p.subrange(first, first + nc));
    whole_chunk_agrees(y, p, first, e);
    assert(all_rows_after(x.w, 0, first as nat, rows, x.cap) =~= x.rows(at)) by {
        assert forall|il: int| 0 <= il < N_LAYER implies all_rows_after(
            x.w,
            0,
            first as nat,
            rows,
            x.cap,
        )[il] == #[trigger] x.rows(at)[il] by {
            rows_add_up(x.w, il, 0, x.c.n_filled as nat, at as nat, rows[il], x.cap);
        }
    }
    assert(chunk_size(p.len() as int, first) == nc);
    assert(chunks_steps(x.w, 0, p, first, rows, x.cap) == one + more);
    run_concat(x.k, p, e, one, more);
    run_none(x.k, p, run(x.k, p, e, one));
    if at + nc < n {
        later_chunks_agree(x, p, rows, at + nc, run(x.k, p, e, one));
    } else {
        assert(y.inside(nc - 1, N_LAYER as nat) == x.inside(n - 1, N_LAYER as nat));
    }
}

/// For any meaning of the kernels, a longer prompt on a fresh session gives the logits, and leaves
/// the caches, that decoding one by one the tokens after its first 128 gives and leaves, where a
/// prompt of those 128 has gone before.
///
/// After the prompt no layer keeps more compressed rows than its indexer picks: a prompt attends to
/// all of them. And every layer has a shared expert.
#[verifier::rlimit(40)]
#[verifier::spinoff_prover]
pub proof fn longer_prompts_go_on_token_by_token<V>(
    k: spec_fn(Step, int, Seq<V>) -> V,
    w: ModelWeights,
    cap: int,
    rows: Seq<u32>,
    tokens: Seq<i32>,
    m: Memory<V>,
)
    requires
        rows.len() == N_LAYER,
        128 < tokens.len() <= u32::MAX,
        cap <= u32::MAX,
        shares(w),
        forall|il: usize|
            il < N_LAYER ==> #[trigger] sees_all(
                w,
                il,
                rows_after(w, il as int, 0, tokens.len(), rows[il as int], cap),
            ),
    ensures
        ({
            let head = tokens.take(128);
            let c = Counters { n_filled: 0, n_comp: rows };
            let e = run(k, tokens, m, prefill_steps(w, 0, tokens, rows, cap));
            let f = run(k, head, m, prefill_steps(w, 0, head, rows, cap));
            let then = count_all(c, prefill_steps(w, 0, head, rows, cap));
            let d = decoded(k, w, cap, then, tokens.skip(128), f);
            &&& (e.at)(Buf::Logits, 0) == (d.at)(Buf::Logits, 0)
            &&& caches_agree(e, d)
        }),
{
    let head = tokens.take(128);
    let c = Counters { n_filled: 0, n_comp: rows };
    let f = run(k, head, m, prefill_steps(w, 0, head, rows, cap));
    let then = count_all(c, prefill_steps(w, 0, head, rows, cap));
    prompts_count_like_their_tokens(w, cap, c, head);
    calls_advance(w, cap, c, head);
    short_prompts_compute_the_forward_pass(k, w, cap, rows, head, m);
    let x = First { k, w, cap, rows, tokens: head, m };
    let whole = Series { k, w, cap, c, tokens, m };
    let s = Series { k, w, cap, c: then, tokens: tokens.skip(128), m: f };
    let a = exec(k, tokens, m, Step::AllocChunk { tokens: 128 });
    let g = run(k, tokens, a, chunk_steps(w, 0, tokens, 0, 128, rows, cap));
    let h = run(k, tokens, g, chunks_steps(w, 0, tokens, 128, rows, cap));
    assert(tokens.subrange(0, 128) =~= head);
    first_chunk_of(x, tokens);
    prompt_in_parts(whole);
    assert forall|il: usize| il < N_LAYER implies #[trigger] state_of(g, il) == state_of(
        f,
        il,
    ) by {
        assert(state_of(f, il) == x.state(il));
    }
    same_caches(g, f);
    assert(then.n_filled == 128);
    assert(then.n_comp == all_rows_after(w, 0, 128, rows, cap));
    assert forall|il: usize, n: nat| il < N_LAYER && n <= s.tokens.len() implies sees_all(
        w,
        il,
        #[trigger] rows_after(w, il as int, 128, n, then.n_comp[il as int], cap),
    ) by {
        let row = rows[il as int];
        rows_add_up(w, il as int, 0, 128, n, row, cap);
        rows_never_shrink(
            w,
            il as int,
            0,
            128 + n,
            (tokens.len() - 128 - n) as nat,
            row,
            cap,
        );
        assert(sees_all(w, il, rows_after(w, il as int, 0, tokens.len(), row, cap)));
    }
    assert(s.plain());
    before_all(s);
    assert(s.tokens =~= tokens.subrange(128, tokens.len() as int));
    later_chunks_agree(s, tokens, rows, 0, g);
    let n = s.tokens.len() as int;
    let last = seq![Step::Advance { n: tokens.len() as usize }, Step::ReadLogits];
    let ends = seq![Step::ReadLogits, Step::Advance { n: 1 }];
    let d = s.inside(n - 1, N_LAYER as nat);
    ends_meet(s, h);
    endings_write_nothing(last);
    endings_write_nothing(ends);
    ends_agree(k, tokens, Seq::empty(), h, d, last, ends);
    token_ends(s, n - 1);
    assert(s.before(n) == decoded(k, w, cap, then, s.tokens, f)) by {
        reveal(Series::before);
        assert(s.tokens.take(n) =~= s.tokens);
    }
}

} // verus!
