//! What holds of the counters of a session.
use vstd::prelude::*;

use crate::model::{LayerSlot, ModelWeights, N_LAYER, N_SWA};
use crate::session::compressor::{
    attn_compressor, attn_steps, emit_steps, emits, index_compressor, index_steps, next_row,
    project_steps, rows_after, shift_steps,
};
use crate::session::decode::{decode_steps, embed_steps, layer_steps, layers_steps, output_steps};
use crate::session::layer::{
    attention_steps, attn_in, attn_out_steps, batch_in, expert_steps, ffn_in, hc_in_steps,
    index_query_steps, merge_steps, moe_steps, out_and_ffn_steps, qkv_steps, raw_count,
    raw_first, router_steps, seen_rows, shared_steps,
};
use crate::session::prefill::{
    all_rows_after, batch_attention_steps, batch_qkv_steps, chunk_layer_steps, chunk_layers_steps,
    chunk_size, chunk_steps, chunk_token_steps, chunk_tokens_steps, chunks_steps, prefill_steps,
    rows_add_up, take_row, token_attention_steps,
};
use crate::session::state::{count, count_all, first_missing, holds, Counters};
use crate::session::step::{ratio_of, Buf, Step, HC_DIM};

verus! {

/// Every row that the steps complete finds room in a cache of `cap` rows.
pub open spec fn permitted(c: Counters, cap: int, steps: Seq<Step>) -> bool
    decreases steps.len(),
{
    steps.len() > 0 ==> {
        &&& permitted(c, cap, steps.drop_last())
        &&& steps.last() matches Step::EmitRow { layer } ==> layer < N_LAYER && count_all(
            c,
            steps.drop_last(),
        ).n_comp[layer as int] < cap
    }
}

/// The counters after one list of steps and then another.
proof fn count_concat(c: Counters, cap: int, a: Seq<Step>, b: Seq<Step>)
    ensures
        count_all(c, a + b) == count_all(count_all(c, a), b),
        permitted(c, cap, a + b) == (permitted(c, cap, a) && permitted(count_all(c, a), cap, b)),
    decreases b.len(),
{
    if b.len() == 0 {
        assert(a + b =~= a);
    } else {
        assert((a + b).drop_last() =~= a + b.drop_last());
        count_concat(c, cap, a, b.drop_last());
    }
}

/// No step changes a counter.
pub open spec fn quiet(steps: Seq<Step>) -> bool {
    forall|i: int|
        0 <= i < steps.len() ==> !(#[trigger] steps[i] is EmitRow) && !(steps[i] is Advance)
}

proof fn quiet_concat(a: Seq<Step>, b: Seq<Step>)
    requires
        quiet(a),
        quiet(b),
    ensures
        quiet(a + b),
{
    assert forall|i: int| 0 <= i < (a + b).len() implies !(#[trigger] (a + b)[i] is EmitRow) && !((a
        + b)[i] is Advance) by {
        if i < a.len() {
            assert((a + b)[i] == a[i]);
        } else {
            assert((a + b)[i] == b[i - a.len()]);
        }
    }
}

proof fn quiet_counts_nothing(c: Counters, cap: int, steps: Seq<Step>)
    requires
        quiet(steps),
    ensures
        count_all(c, steps) == c,
        permitted(c, cap, steps),
    decreases steps.len(),
{
    if steps.len() > 0 {
        let rest = steps.drop_last();
        assert forall|i: int| 0 <= i < rest.len() implies !(#[trigger] rest[i] is EmitRow) && !(
        rest[i] is Advance) by {
            assert(rest[i] == steps[i]);
        }
        quiet_counts_nothing(c, cap, rest);
        assert(!(steps[steps.len() - 1] is EmitRow));
    }
}

proof fn parts_are_quiet(w: ModelWeights, il: usize, pos: u32, token: i32, row: u32)
    ensures
        quiet(hc_in_steps(attn_in(il))),
        quiet(qkv_steps(il, pos)),
        quiet(index_query_steps(w, il, pos)),
        quiet(attention_steps(w, il, pos, row)),
        quiet(out_and_ffn_steps(w, il, pos, token)),
{
    quiet_concat(router_steps(w, il, token), expert_steps(il));
    let a = attn_out_steps(il, pos);
    let b = a + hc_in_steps(ffn_in(il));
    let c = b + shared_steps(w, il);
    let d = c + moe_steps(w, il, token);
    quiet_concat(a, hc_in_steps(ffn_in(il)));
    quiet_concat(b, shared_steps(w, il));
    quiet_concat(c, moe_steps(w, il, token));
    quiet_concat(d, merge_steps(w, il));
}

/// The counters with the rows of one layer brought up to date.
pub open spec fn with_rows(c: Counters, il: int, row: u32) -> Counters {
    Counters { n_comp: c.n_comp.update(il, row), ..c }
}

proof fn compressors_count(
    w: ModelWeights,
    il: usize,
    pos: u32,
    row: u32,
    cap: int,
    c: Counters,
)
    requires
        il < N_LAYER,
        c.n_comp.len() == N_LAYER,
        c.n_comp[il as int] == row,
    ensures
        permitted(c, cap, attn_steps(w, il, pos, row, cap)),
        quiet(index_steps(w, il, pos, row, cap)),
        count_all(c, attn_steps(w, il, pos, row, cap)) == with_rows(
            c,
            il as int,
            next_row(w, il as int, pos as int, row, cap),
        ),
{
    let i = index_compressor(il);
    quiet_concat(project_steps(i, pos), emit_steps(i, pos, row));
    quiet_concat(project_steps(i, pos) + emit_steps(i, pos, row), shift_steps(i));
    let a = attn_compressor(il);
    quiet_concat(project_steps(a, pos), emit_steps(a, pos, row));
    quiet_concat(project_steps(a, pos) + emit_steps(a, pos, row), shift_steps(a));
    let all = project_steps(a, pos) + emit_steps(a, pos, row) + shift_steps(a);
    quiet_counts_nothing(c, cap, all);
    quiet_counts_nothing(c, cap, project_steps(a, pos));
    quiet_counts_nothing(c, cap, Seq::empty());
    let last = Step::EmitRow { layer: il };
    assert((all + seq![last]).drop_last() =~= all);
    assert(c.n_comp.update(il as int, row) =~= c.n_comp);
}

proof fn layer_counts(
    w: ModelWeights,
    il: usize,
    pos: u32,
    token: i32,
    row: u32,
    cap: int,
    c: Counters,
)
    requires
        il < N_LAYER,
        c.n_comp.len() == N_LAYER,
        c.n_comp[il as int] == row,
    ensures
        permitted(c, cap, layer_steps(w, il, pos, token, row, cap)),
        count_all(c, layer_steps(w, il, pos, token, row, cap)) == with_rows(
            c,
            il as int,
            next_row(w, il as int, pos as int, row, cap),
        ),
{
    let after = next_row(w, il as int, pos as int, row, cap);
    let done = with_rows(c, il as int, after);
    parts_are_quiet(w, il, pos, token, after);
    compressors_count(w, il, pos, row, cap, c);
    let p1 = hc_in_steps(attn_in(il));
    let p2 = p1 + qkv_steps(il, pos);
    let p3 = p2 + index_query_steps(w, il, pos);
    let p4 = p3 + index_steps(w, il, pos, row, cap);
    quiet_concat(p1, qkv_steps(il, pos));
    quiet_concat(p2, index_query_steps(w, il, pos));
    quiet_concat(p3, index_steps(w, il, pos, row, cap));
    quiet_counts_nothing(c, cap, p4);
    count_concat(c, cap, p4, attn_steps(w, il, pos, row, cap));
    let p5 = p4 + attn_steps(w, il, pos, row, cap);
    count_concat(c, cap, p5, attention_steps(w, il, pos, after));
    quiet_counts_nothing(done, cap, attention_steps(w, il, pos, after));
    let p6 = p5 + attention_steps(w, il, pos, after);
    count_concat(c, cap, p6, out_and_ffn_steps(w, il, pos, token));
    quiet_counts_nothing(done, cap, out_and_ffn_steps(w, il, pos, token));
}

/// Counters of which the first `n` layers have seen the `k` tokens from `pos` on.
pub open spec fn layers_done(
    w: ModelWeights,
    n: nat,
    pos: int,
    k: nat,
    c: Counters,
    cap: int,
) -> Counters {
    Counters {
        n_comp: Seq::new(
            c.n_comp.len(),
            |il: int|
                if il < n {
                    rows_after(w, il, pos, k, c.n_comp[il], cap)
                } else {
                    c.n_comp[il]
                },
        ),
        ..c
    }
}

proof fn layers_count(
    w: ModelWeights,
    n: nat,
    pos: u32,
    token: i32,
    cap: int,
    c: Counters,
)
    requires
        n <= N_LAYER,
        c.n_comp.len() == N_LAYER,
    ensures
        permitted(c, cap, layers_steps(w, n, pos, token, c.n_comp, cap)),
        count_all(c, layers_steps(w, n, pos, token, c.n_comp, cap)) == layers_done(
            w,
            n,
            pos as int,
            1,
            c,
            cap,
        ),
    decreases n,
{
    if n == 0 {
        assert(layers_done(w, 0, pos as int, 1, c, cap).n_comp =~= c.n_comp);
    } else {
        let m = (n - 1) as nat;
        layers_count(w, m, pos, token, cap, c);
        let before = layers_done(w, m, pos as int, 1, c, cap);
        let row = c.n_comp[m as int];
        layer_counts(w, m as usize, pos, token, row, cap, before);
        count_concat(
            c,
            cap,
            layers_steps(w, m, pos, token, c.n_comp, cap),
            layer_steps(w, m as usize, pos, token, row, cap),
        );
        assert(rows_after(w, m as int, pos as int, 1, row, cap) == next_row(
            w,
            m as int,
            pos as int,
            row,
            cap,
        )) by {
            reveal_with_fuel(rows_after, 2);
        }
        assert(with_rows(before, m as int, next_row(w, m as int, pos as int, row, cap)).n_comp
            =~= layers_done(w, n, pos as int, 1, c, cap).n_comp);
    }
}

proof fn ends_are_quiet(token: i32)
    ensures
        quiet(embed_steps(token)),
        quiet(output_steps()),
{
}

/// Decoding a token at `pos` completes a row in exactly the layers whose window ends there,
/// each of which has room for it, and does not move the position.
pub proof fn decoding_counts_rows(
    w: ModelWeights,
    pos: u32,
    token: i32,
    cap: int,
    c: Counters,
)
    requires
        c.n_comp.len() == N_LAYER,
    ensures
        permitted(c, cap, decode_steps(w, pos, token, c.n_comp, cap)),
        count_all(c, decode_steps(w, pos, token, c.n_comp, cap)) == (Counters {
            n_comp: all_rows_after(w, pos as int, 1, c.n_comp, cap),
            ..c
        }),
{
    let l = layers_steps(w, N_LAYER as nat, pos, token, c.n_comp, cap);
    let done = layers_done(w, N_LAYER as nat, pos as int, 1, c, cap);
    ends_are_quiet(token);
    quiet_counts_nothing(c, cap, embed_steps(token));
    count_concat(c, cap, embed_steps(token), l);
    layers_count(w, N_LAYER as nat, pos, token, cap, c);
    count_concat(c, cap, embed_steps(token) + l, output_steps());
    quiet_counts_nothing(done, cap, output_steps());
    count_concat(c, cap, embed_steps(token) + l + output_steps(), seq![Step::ReadLogits]);
    quiet_counts_nothing(done, cap, seq![Step::ReadLogits]);
    assert(done.n_comp =~= all_rows_after(w, pos as int, 1, c.n_comp, cap));
}

/// The counters after a token was decoded at the current position.
pub open spec fn after_token(w: ModelWeights, cap: int, c: Counters) -> Counters {
    Counters {
        n_comp: all_rows_after(w, c.n_filled, 1, c.n_comp, cap),
        n_filled: c.n_filled + 1,
    }
}

/// Decoding the next token moves the position on by one.
pub proof fn decoding_advances_by_one(w: ModelWeights, token: i32, cap: int, c: Counters)
    requires
        c.n_comp.len() == N_LAYER,
        0 <= c.n_filled < u32::MAX,
    ensures
        count_all(
            c,
            decode_steps(w, c.n_filled as u32, token, c.n_comp, cap).push(Step::Advance { n: 1 }),
        ) == after_token(w, cap, c),
{
    let d = decode_steps(w, c.n_filled as u32, token, c.n_comp, cap);
    decoding_counts_rows(w, c.n_filled as u32, token, cap, c);
    assert(d.push(Step::Advance { n: 1 }).drop_last() =~= d);
}

/// The plan for the next token, where the counters are `c`.
pub open spec fn next_steps(w: ModelWeights, cap: int, c: Counters, token: i32) -> Seq<Step> {
    decode_steps(w, c.n_filled as u32, token, c.n_comp, cap).push(Step::Advance { n: 1 })
}

/// No list of steps moves the position back.
proof fn position_never_goes_back(c: Counters, steps: Seq<Step>, k: int)
    requires
        0 <= k <= steps.len(),
    ensures
        c.n_filled <= count_all(c, steps.take(k)).n_filled <= count_all(c, steps).n_filled,
    decreases steps.len(),
{
    if k < steps.len() {
        assert(steps.drop_last().take(k) =~= steps.take(k));
        position_never_goes_back(c, steps.drop_last(), k);
    } else if steps.len() > 0 {
        assert(steps.take(k) =~= steps);
        position_never_goes_back(c, steps.drop_last(), steps.len() - 1);
        assert(steps.drop_last().take(steps.len() - 1) =~= steps.drop_last());
    } else {
        assert(steps.take(k) =~= steps);
    }
}

/// Decoding the next token is decoding it at the current position: the steps are the same, and
/// so is the tensor that is found missing, if one is. Once all of them are done, the position has
/// moved on by one; wherever they stop before, it has not moved.
pub proof fn decoding_next_is_decoding_here(
    w: ModelWeights,
    token: i32,
    cap: int,
    c: Counters,
    done: int,
)
    requires
        c.n_comp.len() == N_LAYER,
        0 <= c.n_filled < u32::MAX,
        0 <= done <= next_steps(w, cap, c, token).len(),
    ensures
        ({
            let here = decode_steps(w, c.n_filled as u32, token, c.n_comp, cap);
            let next = next_steps(w, cap, c, token);
            &&& next.take(here.len() as int) == here
            &&& first_missing(w, next) == first_missing(w, here)
            &&& count_all(c, next.take(done)).n_filled == if done == next.len() {
                c.n_filled + 1
            } else {
                c.n_filled
            }
        }),
{
    let here = decode_steps(w, c.n_filled as u32, token, c.n_comp, cap);
    let next = next_steps(w, cap, c, token);
    assert(next.drop_last() =~= here);
    assert(next.take(here.len() as int) =~= here);
    if done == next.len() {
        assert(next.take(done) =~= next);
        decoding_advances_by_one(w, token, cap, c);
    } else {
        assert(next.take(done) =~= here.take(done));
        decoding_counts_rows(w, c.n_filled as u32, token, cap, c);
        position_never_goes_back(c, here, done);
    }
}

/// The counters after the tokens were decoded, each as the next one.
pub open spec fn after_calls(w: ModelWeights, cap: int, c: Counters, tokens: Seq<i32>) -> Counters
    decreases tokens.len(),
{
    if tokens.len() == 0 {
        c
    } else {
        let before = after_calls(w, cap, c, tokens.drop_last());
        count_all(before, next_steps(w, cap, before, tokens.last()))
    }
}

proof fn chunk_token_counts(
    w: ModelWeights,
    il: usize,
    first: int,
    t: int,
    token: i32,
    row: u32,
    cap: int,
    c: Counters,
)
    requires
        il < N_LAYER,
        c.n_comp.len() == N_LAYER,
        c.n_comp[il as int] == row,
        0 <= first + t <= u32::MAX,
    ensures
        permitted(c, cap, chunk_token_steps(w, il, first, t, token, row, cap)),
        count_all(c, chunk_token_steps(w, il, first, t, token, row, cap)) == with_rows(
            c,
            il as int,
            next_row(w, il as int, first + t, row, cap),
        ),
{
    let pos = (first + t) as u32;
    let after = next_row(w, il as int, first + t, row, cap);
    let done = with_rows(c, il as int, after);
    parts_are_quiet(w, il, pos, token, after);
    compressors_count(w, il, pos, row, cap, c);
    let p1 = seq![
        take_row(Buf::BHc, t, HC_DIM, Buf::CurHc),
        take_row(Buf::BHcSplit, t, crate::session::step::MIX_HC, Buf::HcSplit),
        take_row(Buf::BAttnNorm, t, crate::model::N_EMBD, Buf::AttnNorm),
    ];
    assert(quiet(p1));
    quiet_concat(p1, index_steps(w, il, pos, row, cap));
    let p2 = p1 + index_steps(w, il, pos, row, cap);
    quiet_counts_nothing(c, cap, p2);
    count_concat(c, cap, p2, attn_steps(w, il, pos, row, cap));
    let p3 = p2 + attn_steps(w, il, pos, row, cap);
    let m = token_attention_steps(il, first, t, seen_rows(il as int, after));
    assert(quiet(m));
    count_concat(c, cap, p3, m);
    quiet_counts_nothing(done, cap, m);
    let p4 = p3 + m;
    count_concat(c, cap, p4, out_and_ffn_steps(w, il, pos, token));
    quiet_counts_nothing(done, cap, out_and_ffn_steps(w, il, pos, token));
    let p5 = p4 + out_and_ffn_steps(w, il, pos, token);
    let last = seq![
        Step::CopyRow {
            src: Buf::CurHc,
            src_at: 0,
            dst: Buf::BHcNext,
            dst_at: (t * HC_DIM) as usize,
            n: HC_DIM,
        },
    ];
    assert(quiet(last));
    count_concat(c, cap, p5, last);
    quiet_counts_nothing(done, cap, last);
}

proof fn chunk_tokens_count(
    w: ModelWeights,
    il: usize,
    first: int,
    n: nat,
    tokens: Seq<i32>,
    row: u32,
    cap: int,
    c: Counters,
)
    requires
        il < N_LAYER,
        c.n_comp.len() == N_LAYER,
        c.n_comp[il as int] == row,
        0 <= first,
        first + n <= u32::MAX,
    ensures
        permitted(c, cap, chunk_tokens_steps(w, il, first, n, tokens, row, cap)),
        count_all(c, chunk_tokens_steps(w, il, first, n, tokens, row, cap)) == with_rows(
            c,
            il as int,
            rows_after(w, il as int, first, n, row, cap),
        ),
    decreases n,
{
    if n == 0 {
        assert(c.n_comp.update(il as int, row) =~= c.n_comp);
    } else {
        let m = (n - 1) as nat;
        chunk_tokens_count(w, il, first, m, tokens, row, cap, c);
        let r = rows_after(w, il as int, first, m, row, cap);
        let before = with_rows(c, il as int, r);
        chunk_token_counts(w, il, first, m as int, tokens[m as int], r, cap, before);
        count_concat(
            c,
            cap,
            chunk_tokens_steps(w, il, first, m, tokens, row, cap),
            chunk_token_steps(w, il, first, m as int, tokens[m as int], r, cap),
        );
        let s = rows_after(w, il as int, first, n, row, cap);
        assert(before.n_comp.update(il as int, s) =~= c.n_comp.update(il as int, s));
    }
}

proof fn chunk_layer_counts(
    w: ModelWeights,
    il: usize,
    first: int,
    tokens: Seq<i32>,
    row: u32,
    cap: int,
    c: Counters,
)
    requires
        il < N_LAYER,
        c.n_comp.len() == N_LAYER,
        c.n_comp[il as int] == row,
        0 <= first,
        first + tokens.len() <= u32::MAX,
    ensures
        permitted(c, cap, chunk_layer_steps(w, il, first, tokens, row, cap)),
        count_all(c, chunk_layer_steps(w, il, first, tokens, row, cap)) == with_rows(
            c,
            il as int,
            rows_after(w, il as int, first, tokens.len(), row, cap),
        ),
{
    let nc = tokens.len() as u32;
    let p1 = hc_in_steps(batch_in(il, nc));
    let p2 = p1 + batch_qkv_steps(il, first as u32, nc);
    let p3 = p2 + batch_attention_steps(il, first as u32, nc);
    quiet_concat(p1, batch_qkv_steps(il, first as u32, nc));
    quiet_concat(p2, batch_attention_steps(il, first as u32, nc));
    quiet_counts_nothing(c, cap, p3);
    let body = chunk_tokens_steps(w, il, first, tokens.len(), tokens, row, cap);
    count_concat(c, cap, p3, body);
    chunk_tokens_count(w, il, first, tokens.len(), tokens, row, cap, c);
    let last = seq![Step::Swap { a: Buf::BHc, b: Buf::BHcNext }];
    count_concat(c, cap, p3 + body, last);
    quiet_counts_nothing(count_all(c, p3 + body), cap, last);
}

proof fn chunk_layers_count(
    w: ModelWeights,
    n: nat,
    first: int,
    tokens: Seq<i32>,
    cap: int,
    c: Counters,
)
    requires
        n <= N_LAYER,
        c.n_comp.len() == N_LAYER,
        0 <= first,
        first + tokens.len() <= u32::MAX,
    ensures
        permitted(c, cap, chunk_layers_steps(w, n, first, tokens, c.n_comp, cap)),
        count_all(c, chunk_layers_steps(w, n, first, tokens, c.n_comp, cap)) == layers_done(
            w,
            n,
            first,
            tokens.len(),
            c,
            cap,
        ),
    decreases n,
{
    if n == 0 {
        assert(layers_done(w, 0, first, tokens.len(), c, cap).n_comp =~= c.n_comp);
    } else {
        let m = (n - 1) as nat;
        chunk_layers_count(w, m, first, tokens, cap, c);
        let before = layers_done(w, m, first, tokens.len(), c, cap);
        let row = c.n_comp[m as int];
        chunk_layer_counts(w, m as usize, first, tokens, row, cap, before);
        count_concat(
            c,
            cap,
            chunk_layers_steps(w, m, first, tokens, c.n_comp, cap),
            chunk_layer_steps(w, m as usize, first, tokens, row, cap),
        );
        assert(with_rows(
            before,
            m as int,
            rows_after(w, m as int, first, tokens.len(), row, cap),
        ).n_comp =~= layers_done(w, n, first, tokens.len(), c, cap).n_comp);
    }
}

/// The counters after the chunks of a prompt up to token `at`.
pub open spec fn after_tokens(
    w: ModelWeights,
    start: int,
    at: nat,
    rows: Seq<u32>,
    cap: int,
) -> Counters {
    Counters { n_comp: all_rows_after(w, start, at, rows, cap), n_filled: start }
}

proof fn chunks_count(
    w: ModelWeights,
    start: int,
    tokens: Seq<i32>,
    at: int,
    rows: Seq<u32>,
    cap: int,
)
    requires
        0 <= at <= tokens.len(),
        rows.len() == N_LAYER,
        0 <= start,
        start + tokens.len() <= u32::MAX,
    ensures
        permitted(
            after_tokens(w, start, at as nat, rows, cap),
            cap,
            chunks_steps(w, start, tokens, at, rows, cap),
        ),
        count_all(
            after_tokens(w, start, at as nat, rows, cap),
            chunks_steps(w, start, tokens, at, rows, cap),
        ) == after_tokens(w, start, tokens.len(), rows, cap),
    decreases tokens.len() - at,
{
    if at < tokens.len() {
        let nc = chunk_size(tokens.len() as int, at);
        let part = tokens.subrange(at, at + nc);
        let c = after_tokens(w, start, at as nat, rows, cap);
        let head = seq![
            Step::UploadTokens { first: at as usize, count: nc as usize },
            Step::Need(crate::model::Weight::Model(crate::model::ModelSlot::TokenEmbd)),
            Step::EmbedTokens {
                w: crate::model::Weight::Model(crate::model::ModelSlot::TokenEmbd),
                tokens: Buf::Tokens,
                out: Buf::BHc,
                n_tok: nc as u32,
            },
        ];
        let body = chunk_layers_steps(w, N_LAYER as nat, start + at, part, c.n_comp, cap);
        assert(quiet(head));
        quiet_counts_nothing(c, cap, head);
        count_concat(c, cap, head, body);
        chunk_layers_count(w, N_LAYER as nat, start + at, part, cap, c);
        let next = after_tokens(w, start, (at + nc) as nat, rows, cap);
        assert forall|il: int| 0 <= il < N_LAYER implies #[trigger] layers_done(
            w,
            N_LAYER as nat,
            start + at,
            nc as nat,
            c,
            cap,
        ).n_comp[il] == next.n_comp[il] by {
            rows_add_up(w, il, start, at as nat, nc as nat, rows[il], cap);
        }
        assert(layers_done(w, N_LAYER as nat, start + at, nc as nat, c, cap).n_comp
            =~= next.n_comp);
        chunks_count(w, start, tokens, at + nc, rows, cap);
        count_concat(
            c,
            cap,
            chunk_steps(w, start + at, tokens, at, nc, c.n_comp, cap),
            chunks_steps(w, start, tokens, at + nc, rows, cap),
        );
    }
}

/// The counters after `n` more tokens.
pub open spec fn advanced(w: ModelWeights, cap: int, c: Counters, n: nat) -> Counters {
    Counters { n_comp: all_rows_after(w, c.n_filled, n, c.n_comp, cap), n_filled: c.n_filled + n }
}

/// Taking a prompt moves the position on by its length, and completes the rows of all windows
/// that end in it, for each of which there is room.
pub proof fn prefilling_advances_by_the_prompt(
    w: ModelWeights,
    tokens: Seq<i32>,
    cap: int,
    c: Counters,
)
    requires
        c.n_comp.len() == N_LAYER,
        0 <= c.n_filled,
        c.n_filled + tokens.len() <= u32::MAX,
    ensures
        permitted(c, cap, prefill_steps(w, c.n_filled, tokens, c.n_comp, cap)),
        count_all(c, prefill_steps(w, c.n_filled, tokens, c.n_comp, cap)) == advanced(
            w,
            cap,
            c,
            tokens.len(),
        ),
{
    let start = c.n_filled;
    let head = seq![
        Step::AllocChunk { tokens: chunk_size(tokens.len() as int, 0) as usize },
    ];
    let body = chunks_steps(w, start, tokens, 0, c.n_comp, cap);
    let last = seq![Step::Advance { n: tokens.len() as usize }, Step::ReadLogits];
    assert(quiet(head));
    quiet_counts_nothing(c, cap, head);
    count_concat(c, cap, head, body);
    assert(all_rows_after(w, start, 0, c.n_comp, cap) =~= c.n_comp);
    chunks_count(w, start, tokens, 0, c.n_comp, cap);
    let done = after_tokens(w, start, tokens.len(), c.n_comp, cap);
    count_concat(c, cap, head + body, output_steps());
    ends_are_quiet(0);
    quiet_counts_nothing(done, cap, output_steps());
    count_concat(c, cap, head + body + output_steps(), last);
    assert(count_all(done, last) == advanced(w, cap, c, tokens.len()) && permitted(
        done,
        cap,
        last,
    )) by {
        reveal_with_fuel(count_all, 3);
        reveal_with_fuel(permitted, 3);
        assert(last.drop_last() =~= seq![Step::Advance { n: tokens.len() as usize }]);
        assert(last.drop_last().drop_last() =~= Seq::empty());
    }
}

/// Taking a prompt leaves the same counters as decoding its tokens one by one.
pub proof fn prefilling_counts_like_decoding(
    w: ModelWeights,
    cap: int,
    c: Counters,
    n: nat,
)
    requires
        c.n_comp.len() == N_LAYER,
    ensures
        advanced(w, cap, c, 0) == c,
        advanced(w, cap, c, n + 1) == after_token(w, cap, advanced(w, cap, c, n)),
{
    assert(all_rows_after(w, c.n_filled, 0, c.n_comp, cap) =~= c.n_comp);
    let before = advanced(w, cap, c, n);
    assert forall|il: int| 0 <= il < N_LAYER implies #[trigger] advanced(
        w,
        cap,
        c,
        n + 1,
    ).n_comp[il] == after_token(w, cap, before).n_comp[il] by {
        rows_add_up(w, il, c.n_filled, n, 1, c.n_comp[il], cap);
    }
    assert(advanced(w, cap, c, n + 1).n_comp =~= after_token(w, cap, before).n_comp);
}

/// Tokens that are decoded one after the other take successive positions: the token with index `i`
/// is decoded at `i` positions behind the first, and at no other.
pub proof fn tokens_take_successive_positions(
    w: ModelWeights,
    cap: int,
    c: Counters,
    tokens: Seq<i32>,
    i: int,
)
    requires
        c.n_comp.len() == N_LAYER,
        0 <= c.n_filled,
        c.n_filled + tokens.len() <= u32::MAX,
        0 <= i < tokens.len(),
    ensures
        after_calls(w, cap, c, tokens).n_filled == c.n_filled + tokens.len(),
        next_steps(w, cap, after_calls(w, cap, c, tokens.take(i)), tokens[i]) == decode_steps(
            w,
            (c.n_filled + i) as u32,
            tokens[i],
            all_rows_after(w, c.n_filled, i as nat, c.n_comp, cap),
            cap,
        ).push(Step::Advance { n: 1 }),
{
    calls_advance(w, cap, c, tokens);
    calls_advance(w, cap, c, tokens.take(i));
}

/// Taking a prompt leaves the counters that decoding its tokens one after the other leaves.
pub proof fn prompts_count_like_their_tokens(
    w: ModelWeights,
    cap: int,
    c: Counters,
    tokens: Seq<i32>,
)
    requires
        c.n_comp.len() == N_LAYER,
        0 <= c.n_filled,
        c.n_filled + tokens.len() <= u32::MAX,
    ensures
        count_all(c, prefill_steps(w, c.n_filled, tokens, c.n_comp, cap)) == after_calls(
            w,
            cap,
            c,
            tokens,
        ),
{
    prefilling_advances_by_the_prompt(w, tokens, cap, c);
    calls_advance(w, cap, c, tokens);
}

/// Tokens that are decoded one after the other move the position on by their number, and complete
/// the rows of all windows that end in them.
pub proof fn calls_advance(w: ModelWeights, cap: int, c: Counters, tokens: Seq<i32>)
    requires
        c.n_comp.len() == N_LAYER,
        0 <= c.n_filled,
        c.n_filled + tokens.len() <= u32::MAX,
    ensures
        after_calls(w, cap, c, tokens) == advanced(w, cap, c, tokens.len()),
    decreases tokens.len(),
{
    if tokens.len() == 0 {
        prefilling_counts_like_decoding(w, cap, c, 0);
    } else {
        let before = advanced(w, cap, c, (tokens.len() - 1) as nat);
        calls_advance(w, cap, c, tokens.drop_last());
        prefilling_counts_like_decoding(w, cap, c, (tokens.len() - 1) as nat);
        decoding_advances_by_one(w, tokens.last(), cap, before);
    }
}

/// In a fresh session, a layer with a compressor has one row for every whole window of its
/// tokens, up to the capacity of its cache.
pub proof fn rows_are_whole_windows(w: ModelWeights, il: int, n: nat, cap: int)
    requires
        0 <= il < N_LAYER,
        ratio_of(il) != 0,
        holds(w, il, LayerSlot::AttnCompressorKv),
        0 <= cap <= u32::MAX,
    ensures
        rows_after(w, il, 0, n, 0, cap) == if n as int / ratio_of(il) as int <= cap {
            n as int / ratio_of(il) as int
        } else {
            cap
        },
    decreases n,
{
    let r = ratio_of(il) as int;
    assert(r == 4 || r == 128);
    if n > 0 {
        rows_are_whole_windows(w, il, (n - 1) as nat, cap);
    }
}

/// Within the context no cache is ever full: every whole window of a fresh session has its row.
pub proof fn caches_have_room_for_the_context(w: ModelWeights, il: int, n: nat, ctx_size: int)
    requires
        0 <= il < N_LAYER,
        ratio_of(il) != 0,
        holds(w, il, LayerSlot::AttnCompressorKv),
        n <= ctx_size <= u32::MAX,
    ensures
        rows_after(w, il, 0, n, 0, ctx_size / 4 + 2) == n as int / ratio_of(il) as int,
        rows_after(w, il, 0, n, 0, ctx_size / 4 + 2) < ctx_size / 4 + 2,
{
    rows_are_whole_windows(w, il, n, ctx_size / 4 + 2);
    let r = ratio_of(il) as int;
    assert(r == 4 || r == 128);
}

/// The rows of the ring that a token attends to are those of the last positions up to its own:
/// position `p` stands at `p` modulo the size of the ring, and the ring holds no two of them in
/// one place.
pub proof fn window_is_the_last_positions(pos: int, i: int)
    requires
        0 <= pos,
        0 <= i < raw_count(pos),
    ensures
        0 <= pos + 1 - raw_count(pos),
        (raw_first(pos) + i) % N_SWA as int == (pos + 1 - raw_count(pos) + i) % N_SWA as int,
        raw_count(pos) <= N_SWA,
        pos + 1 - raw_count(pos) + (raw_count(pos) - 1) == pos,
{
}

/// The two compressors of a layer complete rows at the same tokens: wherever both have their
/// tensors, the index compressor writes a row exactly where the attention compressor does.
pub proof fn compressors_go_in_lockstep(
    w: ModelWeights,
    il: usize,
    pos: u32,
    row: u32,
    cap: int,
)
    requires
        ratio_of(il as int) == 4,
        holds(w, il as int, LayerSlot::AttnCompressorKv),
        holds(w, il as int, LayerSlot::IndexerCompressorKv),
    ensures
        emits(w, il as int, pos as int, row as int, cap) ==> index_steps(w, il, pos, row, cap)
            == project_steps(index_compressor(il), pos) + emit_steps(
            index_compressor(il),
            pos,
            row,
        ) + shift_steps(index_compressor(il)) && attn_steps(w, il, pos, row, cap) == project_steps(
            attn_compressor(il),
            pos,
        ) + emit_steps(attn_compressor(il), pos, row) + shift_steps(attn_compressor(il)) + seq![
            Step::EmitRow { layer: il },
        ],
        !emits(w, il as int, pos as int, row as int, cap) ==> index_steps(w, il, pos, row, cap)
            == project_steps(index_compressor(il), pos) && attn_steps(w, il, pos, row, cap)
            == project_steps(attn_compressor(il), pos),
{
}

} // verus!
