//! What prompts compute on any session.
use vstd::prelude::*;

use crate::model::{ModelWeights, N_LAYER};
use crate::session::agree::{layer_bufs, run_concat, run_none, shares, step_leaves};
use crate::session::forward::{logits_of, state_of};
use crate::session::forward_first::First;
use crate::session::forward_later::{later_chunk_computes, Chunk};
use crate::session::forward_laws::same_state;
use crate::session::fresh_laws::{first_chunk_of, prompt_ends};
use crate::session::laws::{calls_advance, prompts_count_like_their_tokens};
use crate::session::meaning::{exec, run, Memory};
use crate::session::prefill::{
    all_rows_after, chunk_size, chunk_steps, chunks_steps, prefill_steps, rows_add_up,
};
use crate::session::results::{prompt_in_parts, Series};
use crate::session::state::{count_all, Counters};
use crate::session::step::{Buf, Step};

verus! {

/// The layers keep the same, and the residual streams of the last token are the same.
pub open spec fn ends_alike<V>(m: Memory<V>, n: Memory<V>) -> bool {
    &&& (m.at)(Buf::CurHc, 0) == (n.at)(Buf::CurHc, 0)
    &&& forall|il: usize| il < N_LAYER ==> #[trigger] state_of(m, il) == state_of(n, il)
}

/// Allocating the chunk buffers leaves what the layers keep.
proof fn allocating_leaves_states<V>(
    k: spec_fn(Step, int, Seq<V>) -> V,
    p: Seq<i32>,
    m: Memory<V>,
    tokens: usize,
)
    ensures
        forall|il: usize|
            il < N_LAYER ==> #[trigger] state_of(
                exec(k, p, m, Step::AllocChunk { tokens }),
                il,
            ) == state_of(m, il),
{
    let alloc = Step::AllocChunk { tokens };
    let e = exec(k, p, m, alloc);
    assert forall|il: usize| il < N_LAYER implies #[trigger] state_of(e, il) == state_of(
        m,
        il,
    ) by {
        assert forall|b: Buf| #[trigger] layer_bufs(il).contains(b) implies (e.at)(b, 0) == (
        m.at)(b, 0) by {
            step_leaves(k, p, m, alloc, b, 0);
        }
        same_state(e, m, il);
    }
}

/// For any meaning of the kernels, a prompt of no more tokens than the window has rows gives, on a
/// session that holds tokens, the logits of its last token, whose residual streams have gone
/// through all layers: in each of them, every token attends by its own query to the window and to
/// all compressed rows, with itself in them. And each layer keeps its window and its compressed
/// rows with those of the tokens.
pub proof fn prompts_compute_the_forward_pass<V>(
    k: spec_fn(Step, int, Seq<V>) -> V,
    w: ModelWeights,
    cap: int,
    start: int,
    rows: Seq<u32>,
    tokens: Seq<i32>,
    m: Memory<V>,
)
    requires
        rows.len() == N_LAYER,
        0 < start,
        0 < tokens.len() <= 128,
        start + tokens.len() <= u32::MAX,
        shares(w),
    ensures
        ({
            let x = Chunk { k, w, cap, first: start, rows, tokens, m };
            let e = run(k, tokens, m, prefill_steps(w, start, tokens, rows, cap));
            &&& (e.at)(Buf::Logits, 0) == logits_of(k, x.streams(43)[tokens.len() - 1])
            &&& forall|il: usize| il < 43 ==> #[trigger] state_of(e, il) == x.state(il)
        }),
{
    let x = Chunk { k, w, cap, first: start, rows, tokens, m };
    let s = Series { k, w, cap, c: Counters { n_filled: start, n_comp: rows }, tokens, m };
    let nc = tokens.len() as int;
    let a = exec(k, tokens, m, Step::AllocChunk { tokens: nc as usize });
    let one = chunk_steps(w, start, tokens, 0, nc, rows, cap);
    let f = run(k, tokens, a, one);
    let e = run(k, tokens, m, prefill_steps(w, start, tokens, rows, cap));
    assert(tokens.subrange(0, nc) =~= tokens);
    assert(all_rows_after(w, start, 0, rows, cap) =~= rows);
    allocating_leaves_states(k, tokens, m, nc as usize);
    later_chunk_computes(x, tokens, 0, a);
    run_concat(k, tokens, a, one, chunks_steps(w, start, tokens, nc, rows, cap));
    run_none(k, tokens, f);
    prompt_in_parts(s);
    prompt_ends(k, tokens, f, tokens.len() as usize);
    assert forall|il: usize| il < 43 implies #[trigger] state_of(e, il) == x.state(il) by {
        assert(state_of(f, il) == x.state(il));
    }
}

/// The first chunk of a prompt ends as a prompt of its tokens alone.
proof fn first_chunks_end_alike<V>(
    k: spec_fn(Step, int, Seq<V>) -> V,
    w: ModelWeights,
    cap: int,
    start: int,
    rows: Seq<u32>,
    tokens: Seq<i32>,
    m: Memory<V>,
)
    requires
        rows.len() == N_LAYER,
        0 <= start,
        128 < tokens.len(),
        start + tokens.len() <= u32::MAX,
        shares(w),
    ensures
        ({
            let head = tokens.take(128);
            let alloc = Step::AllocChunk { tokens: 128 };
            let a = exec(k, tokens, m, alloc);
            let b = exec(k, head, m, alloc);
            ends_alike(
                run(k, tokens, a, chunk_steps(w, start, tokens, 0, 128, rows, cap)),
                run(k, head, b, chunk_steps(w, start, head, 0, 128, rows, cap)),
            )
        }),
{
    let head = tokens.take(128);
    let alloc = Step::AllocChunk { tokens: 128 };
    let a = exec(k, tokens, m, alloc);
    let b = exec(k, head, m, alloc);
    let f = run(k, tokens, a, chunk_steps(w, start, tokens, 0, 128, rows, cap));
    let g = run(k, head, b, chunk_steps(w, start, head, 0, 128, rows, cap));
    assert(tokens.subrange(0, 128) =~= head);
    assert(head.subrange(0, 128) =~= head);
    if start == 0 {
        let x = First { k, w, cap, rows, tokens: head, m };
        first_chunk_of(x, tokens);
        first_chunk_of(x, head);
        assert forall|il: usize| il < N_LAYER implies #[trigger] state_of(f, il) == state_of(
            g,
            il,
        ) by {
            assert(state_of(f, il) == x.state(il));
            assert(state_of(g, il) == x.state(il));
        }
    } else {
        let x = Chunk { k, w, cap, first: start, rows, tokens: head, m };
        allocating_leaves_states(k, tokens, m, 128);
        allocating_leaves_states(k, head, m, 128);
        later_chunk_computes(x, tokens, 0, a);
        later_chunk_computes(x, head, 0, b);
        assert forall|il: usize| il < N_LAYER implies #[trigger] state_of(f, il) == state_of(
            g,
            il,
        ) by {
            assert(state_of(f, il) == x.state(il));
            assert(state_of(g, il) == x.state(il));
        }
    }
}

/// The rows after tokens and more tokens.
proof fn all_rows_add_up(w: ModelWeights, start: int, a: nat, b: nat, rows: Seq<u32>, cap: int)
    requires
        rows.len() == N_LAYER,
    ensures
        all_rows_after(w, start, a + b, rows, cap) == all_rows_after(
            w,
            start + a,
            b,
            all_rows_after(w, start, a, rows, cap),
            cap,
        ),
{
    let l = all_rows_after(w, start, a + b, rows, cap);
    let r = all_rows_after(w, start + a, b, all_rows_after(w, start, a, rows, cap), cap);
    assert forall|il: int| 0 <= il < N_LAYER implies #[trigger] l[il] == r[il] by {
        rows_add_up(w, il, start, a, b, rows[il], cap);
    }
    assert(l =~= r);
}

/// Later chunks of two prompts that go on alike, at the same position, end alike.
#[verifier::spinoff_prover]
proof fn later_chunks_end_alike<V>(
    k: spec_fn(Step, int, Seq<V>) -> V,
    w: ModelWeights,
    cap: int,
    start: int,
    rows: Seq<u32>,
    p: Seq<i32>,
    at: int,
    m: Memory<V>,
    q: Seq<i32>,
    by: int,
    n: Memory<V>,
)
    requires
        rows.len() == N_LAYER,
        0 <= start,
        0 < by,
        by <= at < p.len(),
        start + p.len() <= u32::MAX,
        q == p.skip(by),
        shares(w),
        forall|il: usize| il < N_LAYER ==> #[trigger] state_of(m, il) == state_of(n, il),
    ensures
        ends_alike(
            run(k, p, m, chunks_steps(w, start, p, at, rows, cap)),
            run(
                k,
                q,
                n,
                chunks_steps(
                    w,
                    start + by,
                    q,
                    at - by,
                    all_rows_after(w, start, by as nat, rows, cap),
                    cap,
                ),
            ),
        ),
    decreases p.len() - at,
{
    let len = p.len() as int;
    let nc = chunk_size(len, at);
    let then = all_rows_after(w, start, by as nat, rows, cap);
    let now = all_rows_after(w, start, at as nat, rows, cap);
    all_rows_add_up(w, start, by as nat, (at - by) as nat, rows, cap);
    assert(chunk_size(q.len() as int, at - by) == nc);
    let x = Chunk { k, w, cap, first: start + at, rows: now, tokens: p.subrange(at, at + nc), m };
    assert(q.subrange(at - by, at - by + nc) =~= x.tokens);
    let a = chunk_steps(w, start + at, p, at, nc, now, cap);
    let b = chunk_steps(w, start + at, q, at - by, nc, now, cap);
    let more = chunks_steps(w, start, p, at + nc, rows, cap);
    let rest = chunks_steps(w, start + by, q, at - by + nc, then, cap);
    let f = run(k, p, m, a);
    let g = run(k, q, n, b);
    later_chunk_computes(x, p, at, m);
    later_chunk_computes(x, q, at - by, n);
    assert forall|il: usize| il < N_LAYER implies #[trigger] state_of(f, il) == state_of(
        g,
        il,
    ) by {
        assert(state_of(f, il) == x.state(il));
        assert(state_of(g, il) == x.state(il));
    }
    assert(chunks_steps(w, start, p, at, rows, cap) == a + more);
    assert(chunks_steps(w, start + by, q, at - by, then, cap) == b + rest);
    run_concat(k, p, m, a, more);
    run_concat(k, q, n, b, rest);
    if at + nc < len {
        later_chunks_end_alike(k, w, cap, start, rows, p, at + nc, f, q, by, g);
    } else {
        run_none(k, p, f);
        run_none(k, q, g);
    }
}

/// For any meaning of the kernels, a longer prompt gives the logits, and leaves with the layers,
/// what a prompt of its first 128 tokens and then a prompt of the others give and leave.
#[verifier::spinoff_prover]
pub proof fn prompts_are_taken_in_parts<V>(
    k: spec_fn(Step, int, Seq<V>) -> V,
    w: ModelWeights,
    cap: int,
    start: int,
    rows: Seq<u32>,
    tokens: Seq<i32>,
    m: Memory<V>,
)
    requires
        rows.len() == N_LAYER,
        0 <= start,
        128 < tokens.len(),
        start + tokens.len() <= u32::MAX,
        shares(w),
    ensures
        ({
            let head = tokens.take(128);
            let rest = tokens.skip(128);
            let c = Counters { n_filled: start, n_comp: rows };
            let then = count_all(c, prefill_steps(w, start, head, rows, cap));
            let e = run(k, tokens, m, prefill_steps(w, start, tokens, rows, cap));
            let f = run(k, head, m, prefill_steps(w, start, head, rows, cap));
            let g = run(k, rest, f, prefill_steps(w, then.n_filled, rest, then.n_comp, cap));
            &&& (e.at)(Buf::Logits, 0) == (g.at)(Buf::Logits, 0)
            &&& forall|il: usize| il < 43 ==> #[trigger] state_of(e, il) == state_of(g, il)
        }),
{
    let head = tokens.take(128);
    let rest = tokens.skip(128);
    let c = Counters { n_filled: start, n_comp: rows };
    let then = count_all(c, prefill_steps(w, start, head, rows, cap));
    let e = run(k, tokens, m, prefill_steps(w, start, tokens, rows, cap));
    let f = run(k, head, m, prefill_steps(w, start, head, rows, cap));
    let g = run(k, rest, f, prefill_steps(w, then.n_filled, rest, then.n_comp, cap));
    prompts_count_like_their_tokens(w, cap, c, head);
    calls_advance(w, cap, c, head);
    assert(then.n_filled == start + 128);
    assert(then.n_comp == all_rows_after(w, start, 128, rows, cap));
    assert(all_rows_after(w, start, 0, rows, cap) =~= rows);
    let alloc = Step::AllocChunk { tokens: 128 };
    let a = exec(k, tokens, m, alloc);
    let b = exec(k, head, m, alloc);
    let one = chunk_steps(w, start, tokens, 0, 128, rows, cap);
    let same = chunk_steps(w, start, head, 0, 128, rows, cap);
    let a1 = run(k, tokens, a, one);
    let b1 = run(k, head, b, same);
    first_chunks_end_alike(k, w, cap, start, rows, tokens, m);
    let more = chunks_steps(w, start, tokens, 128, rows, cap);
    run_concat(k, tokens, a, one, more);
    assert(chunks_steps(w, start, tokens, 0, rows, cap) == one + more);
    let none = chunks_steps(w, start, head, 128, rows, cap);
    assert(none =~= Seq::<Step>::empty());
    assert(chunks_steps(w, start, head, 0, rows, cap) == same + none);
    run_concat(k, head, b, same, none);
    run_none(k, head, b1);
    prompt_in_parts(Series { k, w, cap, c, tokens, m });
    prompt_in_parts(Series { k, w, cap, c, tokens: head, m });
    prompt_in_parts(Series { k, w, cap, c: then, tokens: rest, m: f });
    prompt_ends(k, head, b1, 128);
    let size = chunk_size(rest.len() as int, 0) as usize;
    let d = exec(k, rest, f, Step::AllocChunk { tokens: size });
    allocating_leaves_states(k, rest, f, size);
    assert forall|il: usize| il < N_LAYER implies #[trigger] state_of(a1, il) == state_of(
        d,
        il,
    ) by {
        assert(state_of(d, il) == state_of(f, il));
        assert(state_of(f, il) == state_of(b1, il));
    }
    later_chunks_end_alike(k, w, cap, start, rows, tokens, 128, a1, rest, 128, d);
    let a2 = run(k, tokens, a1, more);
    let d2 = run(k, rest, d, chunks_steps(w, start + 128, rest, 0, then.n_comp, cap));
    prompt_ends(k, tokens, a2, tokens.len() as usize);
    prompt_ends(k, rest, d2, rest.len() as usize);
    assert forall|il: usize| il < 43 implies #[trigger] state_of(e, il) == state_of(g, il) by {
        assert(state_of(e, il) == state_of(a2, il));
        assert(state_of(g, il) == state_of(d2, il));
    }
}

} // verus!
