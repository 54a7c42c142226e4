//! What decoding a token computes.
use vstd::prelude::*;

use crate::model::{LayerSlot, ModelWeights, N_LAYER};
use crate::session::agree::{
    lasting, layer_bufs, run_concat, run_leaves, shares, untouched, untouched_concat,
};
use crate::session::compressor::{
    attn_compressor, attn_steps, emit_steps, index_compressor, index_steps, next_row, project_steps,
    shift_steps,
};
use crate::session::decode::{decode_steps, embed_steps, layer_steps, layers_steps, output_steps};
use crate::session::forward::{
    logits_of, norm, state_after, state_of, streams, turn, window_row, Compressed, CompressorSlots,
};
use crate::session::forward_layer::{
    attn_steps_leave, index_steps_leave, layers_compute, rest_leaves,
};
use crate::session::forward_parts::{embed_computes, output_computes};
use crate::session::layer::{
    attention_steps, attn_in, hc_in_steps, index_query_steps, out_and_ffn_steps, qkv_steps,
};
use crate::session::meaning::{run, Memory};
use crate::session::state::holds;
use crate::session::step::{ratio_of, Buf, Step};

verus! {

/// A layer writes no cache of another.
pub(crate) proof fn layer_leaves_others(
    w: ModelWeights,
    il: usize,
    pos: u32,
    token: i32,
    row: u32,
    cap: int,
    b: Buf,
)
    requires
        lasting(b),
        !layer_bufs(il).contains(b),
    ensures
        untouched(layer_steps(w, il, pos, token, row, cap), b),
{
    let own = layer_bufs(il);
    assert(own.contains(Buf::RawCache(il)) && own.contains(Buf::AttnCompCache(il))
        && own.contains(Buf::AttnStateKv(il)) && own.contains(Buf::AttnStateScore(il))
        && own.contains(Buf::IndexCompCache(il)) && own.contains(Buf::IndexStateKv(il))
        && own.contains(Buf::IndexStateScore(il)));
    let a = hc_in_steps(attn_in(il));
    let c = qkv_steps(il, pos);
    let d = index_query_steps(w, il, pos);
    let e = index_steps(w, il, pos, row, cap);
    let f = attn_steps(w, il, pos, row, cap);
    let g = attention_steps(w, il, pos, next_row(w, il as int, pos as int, row, cap));
    index_steps_leave(w, il, pos, row, cap, b);
    attn_steps_leave(w, il, pos, row, cap, b);
    rest_leaves(w, il, pos, token, b);
    untouched_concat(a, c, b);
    untouched_concat(a + c, d, b);
    untouched_concat(a + c + d, e, b);
    untouched_concat(a + c + d + e, f, b);
    untouched_concat(a + c + d + e + f, g, b);
    untouched_concat(a + c + d + e + f + g, out_and_ffn_steps(w, il, pos, token), b);
}

/// What two memories keep for a layer is the same where its buffers hold the same.
pub(crate) proof fn same_state<V>(m: Memory<V>, n: Memory<V>, il: usize)
    requires
        forall|b: Buf| #[trigger] layer_bufs(il).contains(b) ==> (m.at)(b, 0) == (n.at)(b, 0),
    ensures
        state_of(m, il) == state_of(n, il),
{
    let own = layer_bufs(il);
    assert(own.contains(Buf::RawCache(il)) && own.contains(Buf::AttnCompCache(il))
        && own.contains(Buf::AttnStateKv(il)) && own.contains(Buf::AttnStateScore(il))
        && own.contains(Buf::IndexCompCache(il)) && own.contains(Buf::IndexStateKv(il))
        && own.contains(Buf::IndexStateScore(il)));
}

/// Steps that do not write a layer's buffers leave its state.
pub(crate) proof fn state_stays<V>(
    k: spec_fn(Step, int, Seq<V>) -> V,
    p: Seq<i32>,
    m: Memory<V>,
    steps: Seq<Step>,
    il: usize,
)
    requires
        forall|b: Buf| #[trigger] layer_bufs(il).contains(b) ==> untouched(steps, b),
    ensures
        state_of(run(k, p, m, steps), il) == state_of(m, il),
{
    let n = run(k, p, m, steps);
    assert forall|b: Buf| #[trigger] layer_bufs(il).contains(b) implies (n.at)(b, 0) == (m.at)(
        b,
        0,
    ) by {
        run_leaves(k, p, m, steps, b, 0);
    }
    same_state(n, m, il);
}

/// What the first `l` layers compute.
proof fn layers_compute_streams<V>(
    k: spec_fn(Step, int, Seq<V>) -> V,
    p: Seq<i32>,
    m: Memory<V>,
    w: ModelWeights,
    pos: u32,
    token: i32,
    rows: Seq<u32>,
    cap: int,
    l: nat,
)
    requires
        shares(w),
        l <= N_LAYER,
    ensures
        ({
            let e = run(
                k,
                p,
                m,
                embed_steps(token) + layers_steps(w, l, pos, token, rows, cap),
            );
            &&& (e.at)(Buf::CurHc, 0) == streams(k, w, pos as int, token, rows, cap, m, l)
            &&& forall|il: usize|
                il < N_LAYER ==> #[trigger] state_of(e, il) == if il < l {
                    state_after(
                        k,
                        w,
                        il,
                        pos as int,
                        rows[il as int],
                        cap,
                        streams(k, w, pos as int, token, rows, cap, m, il as nat),
                        state_of(m, il),
                    )
                } else {
                    state_of(m, il)
                }
        }),
    decreases l,
{
    let embed = embed_steps(token);
    if l == 0 {
        assert(embed + layers_steps(w, 0, pos, token, rows, cap) =~= embed);
        embed_computes(k, p, m, token);
        assert forall|il: usize| il < N_LAYER implies #[trigger] state_of(
            run(k, p, m, embed),
            il,
        ) == state_of(m, il) by {
            state_stays(k, p, m, embed, il);
        }
    } else {
        let o = (l - 1) as nat;
        let some = layers_steps(w, o, pos, token, rows, cap);
        let one = layer_steps(w, o as usize, pos, token, rows[o as int], cap);
        layers_compute_streams(k, p, m, w, pos, token, rows, cap, o);
        let e = run(k, p, m, embed + some);
        assert(embed + layers_steps(w, l, pos, token, rows, cap) =~= embed + some + one);
        run_concat(k, p, m, embed + some, one);
        assert(holds(w, o as usize as int, LayerSlot::FfnGateShexp));
        layers_compute(k, p, e, w, o as usize, pos, token, rows[o as int], cap);
        assert(state_of(e, o as usize) == state_of(m, o as usize));
        let f = run(k, p, e, one);
        assert forall|il: usize| il < N_LAYER implies #[trigger] state_of(f, il) == if il < l {
            state_after(
                k,
                w,
                il,
                pos as int,
                rows[il as int],
                cap,
                streams(k, w, pos as int, token, rows, cap, m, il as nat),
                state_of(m, il),
            )
        } else {
            state_of(m, il)
        } by {
            assert(state_of(e, il) == state_of(e, il));
            if il != o {
                assert forall|b: Buf| #[trigger] layer_bufs(il).contains(b) implies untouched(
                    one,
                    b,
                ) by {
                    assert(lasting(b));
                    assert(!layer_bufs(o as usize).contains(b));
                    layer_leaves_others(w, o as usize, pos, token, rows[o as int], cap, b);
                }
                state_stays(k, p, e, one, il);
            }
        }
    }
}

/// Decoding a token computes the forward pass: its logits are those of the streams with which it
/// leaves the last layer, and every layer keeps what follows from the streams with which the token
/// entered it.
pub proof fn decoding_computes_the_forward_pass<V>(
    k: spec_fn(Step, int, Seq<V>) -> V,
    m: Memory<V>,
    w: ModelWeights,
    pos: u32,
    token: i32,
    rows: Seq<u32>,
    cap: int,
)
    requires
        shares(w),
    ensures
        ({
            let e = run(
                k,
                Seq::empty(),
                m,
                decode_steps(w, pos, token, rows, cap).push(Step::Advance { n: 1 }),
            );
            let d = run(k, Seq::empty(), m, decode_steps(w, pos, token, rows, cap));
            &&& (d.at)(Buf::Logits, 0) == logits_of(
                k,
                streams(k, w, pos as int, token, rows, cap, m, 43),
            )
            &&& (e.at)(Buf::Logits, 0) == (d.at)(Buf::Logits, 0)
            &&& forall|il: usize|
                il < 43 ==> #[trigger] state_of(d, il) == state_after(
                    k,
                    w,
                    il,
                    pos as int,
                    rows[il as int],
                    cap,
                    streams(k, w, pos as int, token, rows, cap, m, il as nat),
                    state_of(m, il),
                )
            &&& forall|il: usize| il < 43 ==> #[trigger] state_of(e, il) == state_of(d, il)
        }),
{
    let q = Seq::<i32>::empty();
    let front = embed_steps(token) + layers_steps(w, N_LAYER as nat, pos, token, rows, cap);
    let last = seq![Step::ReadLogits];
    let steps = decode_steps(w, pos, token, rows, cap);
    let advance = seq![Step::Advance { n: 1 }];
    let m1 = run(k, q, m, front);
    let m2 = run(k, q, m1, output_steps());
    let d = run(k, q, m2, last);
    let e = run(k, q, d, advance);
    assert(steps =~= front + output_steps() + last);
    assert(steps.push(Step::Advance { n: 1 }) =~= steps + advance);
    run_concat(k, q, m, front, output_steps());
    run_concat(k, q, m, front + output_steps(), last);
    run_concat(k, q, m, steps, advance);
    layers_compute_streams(k, q, m, w, pos, token, rows, cap, N_LAYER as nat);
    output_computes(k, q, m1);
    assert(untouched(last, Buf::Logits));
    assert(untouched(advance, Buf::Logits));
    run_leaves(k, q, m2, last, Buf::Logits, 0);
    run_leaves(k, q, d, advance, Buf::Logits, 0);
    assert forall|il: usize| il < 43 implies #[trigger] state_of(d, il) == state_of(m1, il) by {
        assert forall|b: Buf| #[trigger] layer_bufs(il).contains(b) implies untouched(
            output_steps(),
            b,
        ) by {}
        state_stays(k, q, m1, output_steps(), il);
        state_stays(k, q, m2, last, il);
    }
    assert forall|il: usize| il < 43 implies #[trigger] state_of(e, il) == state_of(d, il) by {
        state_stays(k, q, d, advance, il);
    }
}

/// The row of a whole window is rotated by the position of the window's first token: where the
/// cache holds a row for every window before, the row with number `row` is rotated by `row` times
/// the length of a window.
pub proof fn rows_are_rotated_by_their_windows<V>(
    k: spec_fn(Step, int, Seq<V>) -> V,
    il: usize,
    c: CompressorSlots,
    pos: int,
    row: int,
    s: Compressed<V>,
)
    requires
        ratio_of(il as int) != 0,
        pos >= 0,
        row == pos / ratio_of(il as int) as int,
    ensures
        ({
            let b = Buf::NoTokens;
            let ratio = ratio_of(il as int);
            window_row(k, il, c, pos, s) == k(
                Step::Fp8Quantize { x: b, head_dim: c.dim },
                0,
                seq![
                    turn(
                        k,
                        il,
                        1,
                        c.dim,
                        row * ratio,
                        65536,
                        false,
                        norm(
                            k,
                            crate::model::Weight::Layer(il, c.norm),
                            c.dim,
                            k(
                                Step::CompressorPool {
                                    state_kv: b,
                                    state_score: b,
                                    out: b,
                                    head_dim: c.dim,
                                    ratio,
                                },
                                0,
                                seq![s.keys, s.scores],
                            ),
                        ),
                    ),
                ],
            )
        }),
{
    let ratio = ratio_of(il as int) as int;
    assert(ratio == 4 || ratio == 128);
    assert(pos - pos % ratio == row * ratio) by {
        if ratio == 4 {
            assert(pos == 4 * (pos / 4) + pos % 4);
        } else {
            assert(pos == 128 * (pos / 128) + pos % 128);
        }
    }
}

/// Wherever a plan rotates a compressed row of layer `il`, it does so by the position `first`, and
/// wherever it writes one to a cache, it does so at place `row`.
pub open spec fn rotates_by(steps: Seq<Step>, first: int, row: int) -> bool {
    forall|i: int| 0 <= i < steps.len() ==> #[trigger] rotated_by(steps[i], first, row)
}

/// The same of a step.
pub open spec fn rotated_by(step: Step, first: int, row: int) -> bool {
    match step {
        Step::Rope { x, pos, inverse, .. } => x == Buf::CompEmitPost || x == Buf::IndexCompEmitPost
            ==> pos == first && !inverse,
        Step::CopyAt { src, dst, n, offset } => {
            &&& src == Buf::CompEmitPost ==> dst is AttnCompCache && n == 512 && offset == row * 512
            &&& src == Buf::IndexCompEmitPost ==> dst is IndexCompCache && n == 128 && offset == row
                * 128
        },
        _ => true,
    }
}

proof fn rotates_concat(a: Seq<Step>, b: Seq<Step>, first: int, row: int)
    requires
        rotates_by(a, first, row),
        rotates_by(b, first, row),
    ensures
        rotates_by(a + b, first, row),
{
    assert forall|i: int| 0 <= i < (a + b).len() implies #[trigger] rotated_by(
        (a + b)[i],
        first,
        row,
    ) by {
        if i < a.len() {
            assert(rotated_by(a[i], first, row));
        } else {
            assert(rotated_by(b[i - a.len()], first, row));
        }
    }
}

/// In a session whose caches hold a row for every whole window, a plan that completes row number
/// `row` of a layer rotates it by the position of the first token of its window, which is `row`
/// times the length of a window, and writes it to place `row` of the cache.
pub proof fn plans_rotate_rows_by_their_windows(
    w: ModelWeights,
    il: usize,
    pos: u32,
    row: u32,
    cap: int,
)
    requires
        ratio_of(il as int) != 0,
        row == pos as int / ratio_of(il as int) as int,
        row * 512 <= u32::MAX,
    ensures
        rotates_by(
            index_steps(w, il, pos, row, cap) + attn_steps(w, il, pos, row, cap),
            row * ratio_of(il as int),
            row as int,
        ),
{
    let ratio = ratio_of(il as int) as int;
    let first = row * ratio;
    assert(ratio == 4 || ratio == 128);
    let i = index_compressor(il);
    let a = attn_compressor(il);
    if (pos + 1) % ratio == 0 {
        assert(pos + 1 - ratio == first) by {
            if ratio == 4 {
                assert(pos == 4 * (pos as int / 4) + pos as int % 4);
            } else {
                assert(pos == 128 * (pos as int / 128) + pos as int % 128);
            }
        }
        assert(rotates_by(emit_steps(i, pos, row), first, row as int));
        assert(rotates_by(emit_steps(a, pos, row), first, row as int));
        rotates_concat(project_steps(i, pos), emit_steps(i, pos, row), first, row as int);
        rotates_concat(
            project_steps(i, pos) + emit_steps(i, pos, row),
            shift_steps(i),
            first,
            row as int,
        );
        rotates_concat(project_steps(a, pos), emit_steps(a, pos, row), first, row as int);
        let x = project_steps(a, pos) + emit_steps(a, pos, row);
        rotates_concat(x, shift_steps(a), first, row as int);
        rotates_concat(
            x + shift_steps(a),
            seq![Step::EmitRow { layer: il }],
            first,
            row as int,
        );
    }
    rotates_concat(
        index_steps(w, il, pos, row, cap),
        attn_steps(w, il, pos, row, cap),
        first,
        row as int,
    );
}

} // verus!
