//! Every tensor that a plan reads is asked for before, and no other is asked for.
use vstd::prelude::*;

use crate::model::{ModelSlot, ModelWeights, Weight, N_EMBD, N_LAYER};
use crate::session::compressor::{
    attn_compressor, attn_steps, emit_steps, index_compressor, index_steps, next_row, project_steps,
    rows_after, shift_steps, Compressor,
};
use crate::session::decode::{decode_steps, embed_steps, layer_steps, layers_steps, output_steps};
use crate::session::layer::{
    attention_steps, attn_in, attn_out_steps, batch_in, expert_steps, ffn_in, hc_in_steps,
    index_query_steps, merge_steps, moe_steps, out_and_ffn_steps, qkv_steps, router_steps,
    seen_rows, shared_steps, HcIn,
};
use crate::session::prefill::{
    all_rows_after, batch_attention_steps, batch_qkv_steps, chunk_layer_steps, chunk_layers_steps,
    chunk_size, chunk_steps, chunk_token_steps, chunk_tokens_steps, chunks_steps, prefill_steps,
    take_row, token_attention_steps,
};
use crate::session::state::first_missing;
use crate::session::step::{Buf, Operand, Step, HC_DIM, MIX_HC};

verus! {

/// The step reads the tensor.
pub open spec fn reads_tensor(s: Step, t: Weight) -> bool {
    match s {
        Step::EmbedToken { w, .. } => t == w,
        Step::EmbedTokens { w, .. } => t == w,
        Step::RmsNormWeight { w, .. } => t == w,
        Step::MatmulF16 { w, .. } => t == w,
        Step::HcSplitNorm { scale, base, norm, .. } => t == scale || t == base || t == norm,
        Step::MatmulQ8 { w, .. } => t == w,
        Step::MatmulQ8Batch { w, .. } => t == w,
        Step::MatmulQ8Grouped { w, .. } => t == w,
        Step::MatmulQ8HcExpand { w, .. } => t == w,
        Step::QkvNorm { qr_w, kv_w, .. } => t == qr_w || t == kv_w,
        Step::PrefillRaw { sinks, .. } => t == sinks,
        Step::DecodeMixed { sinks, .. } => t == sinks,
        Step::IndexedMixed { sinks, .. } => t == sinks,
        Step::CompressorStore { ape, .. } => t == ape,
        Step::RouterSelect { bias, hash, .. } => bias == Operand::Tensor(t) || hash
            == Operand::Tensor(t),
        Step::MoeGateUpMid { w_gate, w_up, .. } => t == w_gate || t == w_up,
        Step::MoeDownSum { w_down, .. } => t == w_down,
        Step::OutputHcWeights { scale, base, .. } => t == scale || t == base,
        _ => false,
    }
}

/// A tensor is asked for among the first `n` steps.
pub open spec fn asked(steps: Seq<Step>, n: int, t: Weight) -> bool {
    exists|j: int| 0 <= j < n && j < steps.len() && #[trigger] steps[j] == Step::Need(t)
}

/// A tensor is read by one of the steps from step `n` on.
pub open spec fn read_from(steps: Seq<Step>, n: int, t: Weight) -> bool {
    exists|j: int| n <= j < steps.len() && 0 <= j && reads_tensor(#[trigger] steps[j], t)
}

/// Every tensor that a step reads was asked for before, and what is asked for is read later.
pub open spec fn asks(steps: Seq<Step>) -> bool {
    &&& forall|i: int, t: Weight|
        0 <= i < steps.len() && #[trigger] reads_tensor(steps[i], t) ==> asked(steps, i, t)
    &&& forall|i: int, t: Weight|
        0 <= i < steps.len() && steps[i] == Step::Need(t) ==> #[trigger] read_from(steps, i, t)
}

proof fn asks_concat(a: Seq<Step>, b: Seq<Step>)
    requires
        asks(a),
        asks(b),
    ensures
        asks(a + b),
{
    let both = a + b;
    let n = a.len() as int;
    assert forall|i: int, t: Weight|
        0 <= i < both.len() && #[trigger] reads_tensor(both[i], t) implies asked(both, i, t) by {
        if i < n {
            assert(reads_tensor(a[i], t));
            let j = choose|j: int| 0 <= j < i && j < a.len() && #[trigger] a[j] == Step::Need(t);
            assert(both[j] == Step::Need(t));
        } else {
            assert(reads_tensor(b[i - n], t));
            let j = choose|j: int|
                0 <= j < i - n && j < b.len() && #[trigger] b[j] == Step::Need(t);
            assert(both[n + j] == Step::Need(t));
        }
    }
    assert forall|i: int, t: Weight|
        0 <= i < both.len() && both[i] == Step::Need(t) implies #[trigger] read_from(
            both,
            i,
            t,
        ) by {
        if i < n {
            assert(a[i] == Step::Need(t));
            assert(read_from(a, i, t));
            let j = choose|j: int| i <= j < a.len() && 0 <= j && reads_tensor(#[trigger] a[j], t);
            assert(both[j] == a[j]);
        } else {
            assert(b[i - n] == Step::Need(t));
            assert(read_from(b, i - n, t));
            let j = choose|j: int|
                i - n <= j < b.len() && 0 <= j && reads_tensor(#[trigger] b[j], t);
            assert(both[n + j] == b[j]);
        }
    }
}

/// From step `i` on, every tensor that is read was asked for, given those that were before.
spec fn asks_from(steps: Seq<Step>, i: int, have: spec_fn(Weight) -> bool) -> bool
    decreases steps.len() - i,
{
    if i < 0 || i >= steps.len() {
        true
    } else {
        &&& forall|t: Weight| #[trigger] reads_tensor(steps[i], t) ==> have(t)
        &&& asks_from(steps, i + 1, |t: Weight| have(t) || steps[i] == Step::Need(t))
    }
}

/// Among the first `n` steps, every tensor that is asked for is read later, given those that are
/// read behind them.
spec fn used_from(steps: Seq<Step>, n: int, used: spec_fn(Weight) -> bool) -> bool
    decreases n,
{
    if n <= 0 || n > steps.len() {
        true
    } else {
        &&& steps[n - 1] matches Step::Need(t) ==> used(t)
        &&& used_from(steps, n - 1, |t: Weight| used(t) || reads_tensor(steps[n - 1], t))
    }
}

proof fn asks_follows(steps: Seq<Step>, i: int, have: spec_fn(Weight) -> bool)
    requires
        0 <= i <= steps.len(),
        asks_from(steps, i, have),
        forall|t: Weight| #[trigger] have(t) ==> asked(steps, i, t),
    ensures
        forall|k: int, t: Weight|
            i <= k < steps.len() && #[trigger] reads_tensor(steps[k], t) ==> asked(steps, k, t),
    decreases steps.len() - i,
{
    if i < steps.len() {
        let more = |t: Weight| have(t) || steps[i] == Step::Need(t);
        assert forall|t: Weight| #[trigger] more(t) implies asked(steps, i + 1, t) by {
            if have(t) {
                let j = choose|j: int|
                    0 <= j < i && j < steps.len() && #[trigger] steps[j] == Step::Need(t);
                assert(steps[j] == Step::Need(t));
            } else {
                assert(steps[i] == Step::Need(t));
            }
        }
        asks_follows(steps, i + 1, more);
    }
}

proof fn used_follows(steps: Seq<Step>, n: int, used: spec_fn(Weight) -> bool)
    requires
        0 <= n <= steps.len(),
        used_from(steps, n, used),
        forall|t: Weight| #[trigger] used(t) ==> read_from(steps, n, t),
    ensures
        forall|k: int, t: Weight|
            0 <= k < n && steps[k] == Step::Need(t) ==> #[trigger] read_from(steps, k, t),
    decreases n,
{
    if n > 0 {
        let more = |t: Weight| used(t) || reads_tensor(steps[n - 1], t);
        assert forall|t: Weight| #[trigger] more(t) implies read_from(steps, n - 1, t) by {
            if used(t) {
                let j = choose|j: int|
                    n <= j < steps.len() && 0 <= j && reads_tensor(#[trigger] steps[j], t);
                assert(reads_tensor(steps[j], t));
            } else {
                assert(reads_tensor(steps[n - 1], t));
            }
        }
        used_follows(steps, n - 1, more);
        assert forall|k: int, t: Weight|
            0 <= k < n && steps[k] == Step::Need(t) implies #[trigger] read_from(steps, k, t) by {
            if k == n - 1 {
                assert(used(t));
                let j = choose|j: int|
                    n <= j < steps.len() && 0 <= j && reads_tensor(#[trigger] steps[j], t);
                assert(reads_tensor(steps[j], t));
            }
        }
    }
}

proof fn asks_in_turn(steps: Seq<Step>)
    requires
        asks_from(steps, 0, |t: Weight| false),
        used_from(steps, steps.len() as int, |t: Weight| false),
    ensures
        asks(steps),
{
    asks_follows(steps, 0, |t: Weight| false);
    used_follows(steps, steps.len() as int, |t: Weight| false);
}

proof fn embed_asks(token: i32)
    ensures
        asks(embed_steps(token)),
{
    let s = embed_steps(token);
    reveal_with_fuel(asks_from, 3);
    reveal_with_fuel(used_from, 3);
    asks_in_turn(s);
}

proof fn hc_in_asks(h: HcIn)
    ensures
        asks(hc_in_steps(h)),
{
    let s = hc_in_steps(h);
    reveal_with_fuel(asks_from, 8);
    reveal_with_fuel(used_from, 8);
    asks_in_turn(s);
}

proof fn qkv_asks(il: usize, pos: u32)
    ensures
        asks(qkv_steps(il, pos)),
{
    let s = qkv_steps(il, pos);
    reveal_with_fuel(asks_from, 18);
    reveal_with_fuel(used_from, 18);
    asks_in_turn(s);
}

proof fn index_query_asks(w: ModelWeights, il: usize, pos: u32)
    ensures
        asks(index_query_steps(w, il, pos)),
{
    let s = index_query_steps(w, il, pos);
    reveal_with_fuel(asks_from, 7);
    reveal_with_fuel(used_from, 7);
    asks_in_turn(s);
}

proof fn project_asks(c: Compressor, pos: u32)
    ensures
        asks(project_steps(c, pos)),
{
    let s = project_steps(c, pos);
    reveal_with_fuel(asks_from, 7);
    reveal_with_fuel(used_from, 7);
    asks_in_turn(s);
}

proof fn emit_asks(c: Compressor, pos: u32, row: u32)
    ensures
        asks(emit_steps(c, pos, row)),
{
    let s = emit_steps(c, pos, row);
    reveal_with_fuel(asks_from, 7);
    reveal_with_fuel(used_from, 7);
    asks_in_turn(s);
}

proof fn shift_asks(c: Compressor)
    ensures
        asks(shift_steps(c)),
{
    let s = shift_steps(c);
    reveal_with_fuel(asks_from, 2);
    reveal_with_fuel(used_from, 2);
    asks_in_turn(s);
}

proof fn attention_asks(w: ModelWeights, il: usize, pos: u32, row: u32)
    ensures
        asks(attention_steps(w, il, pos, row)),
{
    let s = attention_steps(w, il, pos, row);
    reveal_with_fuel(asks_from, 5);
    reveal_with_fuel(used_from, 5);
    asks_in_turn(s);
}

proof fn attn_out_asks(il: usize, pos: u32)
    ensures
        asks(attn_out_steps(il, pos)),
{
    let s = attn_out_steps(il, pos);
    reveal_with_fuel(asks_from, 9);
    reveal_with_fuel(used_from, 9);
    asks_in_turn(s);
}

proof fn shared_asks(w: ModelWeights, il: usize)
    ensures
        asks(shared_steps(w, il)),
{
    let s = shared_steps(w, il);
    reveal_with_fuel(asks_from, 10);
    reveal_with_fuel(used_from, 10);
    asks_in_turn(s);
}

proof fn expert_asks(il: usize)
    ensures
        asks(expert_steps(il)),
{
    let s = expert_steps(il);
    reveal_with_fuel(asks_from, 8);
    reveal_with_fuel(used_from, 8);
    asks_in_turn(s);
}

proof fn merge_asks(w: ModelWeights, il: usize)
    ensures
        asks(merge_steps(w, il)),
{
    let s = merge_steps(w, il);
    reveal_with_fuel(asks_from, 4);
    reveal_with_fuel(used_from, 4);
    asks_in_turn(s);
}

proof fn output_asks()
    ensures
        asks(output_steps()),
{
    let s = output_steps();
    reveal_with_fuel(asks_from, 14);
    reveal_with_fuel(used_from, 14);
    asks_in_turn(s);
}

proof fn batch_qkv_asks(il: usize, pos: u32, nc: u32)
    ensures
        asks(batch_qkv_steps(il, pos, nc)),
{
    let s = batch_qkv_steps(il, pos, nc);
    reveal_with_fuel(asks_from, 16);
    reveal_with_fuel(used_from, 16);
    asks_in_turn(s);
}

proof fn batch_attention_asks(il: usize, pos: u32, nc: u32)
    ensures
        asks(batch_attention_steps(il, pos, nc)),
{
    let s = batch_attention_steps(il, pos, nc);
    reveal_with_fuel(asks_from, 4);
    reveal_with_fuel(used_from, 4);
    asks_in_turn(s);
}

proof fn token_attention_asks(il: usize, first: int, t: int, n_comp: u32)
    ensures
        asks(token_attention_steps(il, first, t, n_comp)),
{
    let s = token_attention_steps(il, first, t, n_comp);
    reveal_with_fuel(asks_from, 6);
    reveal_with_fuel(used_from, 6);
    asks_in_turn(s);
}

proof fn router_asks(w: ModelWeights, il: usize, token: i32)
    ensures
        asks(router_steps(w, il, token)),
{
    let s = router_steps(w, il, token);
    reveal_with_fuel(asks_from, 6);
    reveal_with_fuel(used_from, 6);
    asks_in_turn(s);
}

/// Steps that neither ask for a tensor nor read one.
proof fn others_ask_nothing(steps: Seq<Step>)
    requires
        forall|i: int, t: Weight|
            0 <= i < steps.len() ==> !(#[trigger] reads_tensor(steps[i], t)) && steps[i]
                != Step::Need(t),
    ensures
        asks(steps),
{
    assert forall|i: int, t: Weight|
        0 <= i < steps.len() && steps[i] == Step::Need(t) implies #[trigger] read_from(
        steps,
        i,
        t,
    ) by {
        assert(!reads_tensor(steps[i], t));
    }
}

proof fn compressors_ask(w: ModelWeights, il: usize, pos: u32, row: u32, cap: int)
    ensures
        asks(index_steps(w, il, pos, row, cap)),
        asks(attn_steps(w, il, pos, row, cap)),
{
    let c = index_compressor(il);
    project_asks(c, pos);
    emit_asks(c, pos, row);
    shift_asks(c);
    asks_concat(project_steps(c, pos), emit_steps(c, pos, row));
    asks_concat(project_steps(c, pos) + emit_steps(c, pos, row), shift_steps(c));
    others_ask_nothing(Seq::empty());
    let c = attn_compressor(il);
    let last = seq![Step::EmitRow { layer: il }];
    project_asks(c, pos);
    emit_asks(c, pos, row);
    shift_asks(c);
    others_ask_nothing(last);
    asks_concat(project_steps(c, pos), emit_steps(c, pos, row));
    asks_concat(project_steps(c, pos) + emit_steps(c, pos, row), shift_steps(c));
    asks_concat(project_steps(c, pos) + emit_steps(c, pos, row) + shift_steps(c), last);
}

proof fn out_and_ffn_asks(w: ModelWeights, il: usize, pos: u32, token: i32)
    ensures
        asks(out_and_ffn_steps(w, il, pos, token)),
{
    attn_out_asks(il, pos);
    hc_in_asks(ffn_in(il));
    shared_asks(w, il);
    router_asks(w, il, token);
    expert_asks(il);
    merge_asks(w, il);
    others_ask_nothing(Seq::empty());
    asks_concat(router_steps(w, il, token), expert_steps(il));
    let a = attn_out_steps(il, pos);
    let b = a + hc_in_steps(ffn_in(il));
    let c = b + shared_steps(w, il);
    let d = c + moe_steps(w, il, token);
    asks_concat(a, hc_in_steps(ffn_in(il)));
    asks_concat(b, shared_steps(w, il));
    asks_concat(c, moe_steps(w, il, token));
    asks_concat(d, merge_steps(w, il));
}

proof fn layer_asks(w: ModelWeights, il: usize, pos: u32, token: i32, row: u32, cap: int)
    ensures
        asks(layer_steps(w, il, pos, token, row, cap)),
{
    let after = next_row(w, il as int, pos as int, row, cap);
    hc_in_asks(attn_in(il));
    qkv_asks(il, pos);
    index_query_asks(w, il, pos);
    compressors_ask(w, il, pos, row, cap);
    attention_asks(w, il, pos, after);
    out_and_ffn_asks(w, il, pos, token);
    let a = hc_in_steps(attn_in(il));
    let b = a + qkv_steps(il, pos);
    let c = b + index_query_steps(w, il, pos);
    let d = c + index_steps(w, il, pos, row, cap);
    let e = d + attn_steps(w, il, pos, row, cap);
    let f = e + attention_steps(w, il, pos, after);
    asks_concat(a, qkv_steps(il, pos));
    asks_concat(b, index_query_steps(w, il, pos));
    asks_concat(c, index_steps(w, il, pos, row, cap));
    asks_concat(d, attn_steps(w, il, pos, row, cap));
    asks_concat(e, attention_steps(w, il, pos, after));
    asks_concat(f, out_and_ffn_steps(w, il, pos, token));
}

proof fn layers_ask(w: ModelWeights, n: nat, pos: u32, token: i32, rows: Seq<u32>, cap: int)
    ensures
        asks(layers_steps(w, n, pos, token, rows, cap)),
    decreases n,
{
    if n == 0 {
        others_ask_nothing(Seq::empty());
    } else {
        let m = (n - 1) as nat;
        layers_ask(w, m, pos, token, rows, cap);
        layer_asks(w, m as usize, pos, token, rows[m as int], cap);
        asks_concat(
            layers_steps(w, m, pos, token, rows, cap),
            layer_steps(w, m as usize, pos, token, rows[m as int], cap),
        );
    }
}

/// Decoding a token asks for every tensor before it reads it, and for none that it does not read.
pub proof fn decoding_asks_for_its_tensors(
    w: ModelWeights,
    pos: u32,
    token: i32,
    rows: Seq<u32>,
    cap: int,
)
    ensures
        asks(decode_steps(w, pos, token, rows, cap)),
{
    let a = embed_steps(token);
    let b = layers_steps(w, N_LAYER as nat, pos, token, rows, cap);
    let last = seq![Step::ReadLogits];
    embed_asks(token);
    layers_ask(w, N_LAYER as nat, pos, token, rows, cap);
    output_asks();
    others_ask_nothing(last);
    asks_concat(a, b);
    asks_concat(a + b, output_steps());
    asks_concat(a + b + output_steps(), last);
}

proof fn chunk_token_asks(
    w: ModelWeights,
    il: usize,
    first: int,
    t: int,
    token: i32,
    row: u32,
    cap: int,
)
    ensures
        asks(chunk_token_steps(w, il, first, t, token, row, cap)),
{
    let pos = (first + t) as u32;
    let after = next_row(w, il as int, pos as int, row, cap);
    let a = seq![
        take_row(Buf::BHc, t, HC_DIM, Buf::CurHc),
        take_row(Buf::BHcSplit, t, MIX_HC, Buf::HcSplit),
        take_row(Buf::BAttnNorm, t, N_EMBD, Buf::AttnNorm),
    ];
    let b = a + index_steps(w, il, pos, row, cap);
    let c = b + attn_steps(w, il, pos, row, cap);
    let m = token_attention_steps(il, first, t, seen_rows(il as int, after));
    let d = c + m;
    let e = d + out_and_ffn_steps(w, il, pos, token);
    let last = seq![
        Step::CopyRow {
            src: Buf::CurHc,
            src_at: 0,
            dst: Buf::BHcNext,
            dst_at: (t * HC_DIM) as usize,
            n: HC_DIM,
        },
    ];
    others_ask_nothing(a);
    others_ask_nothing(last);
    compressors_ask(w, il, pos, row, cap);
    token_attention_asks(il, first, t, seen_rows(il as int, after));
    out_and_ffn_asks(w, il, pos, token);
    asks_concat(a, index_steps(w, il, pos, row, cap));
    asks_concat(b, attn_steps(w, il, pos, row, cap));
    asks_concat(c, m);
    asks_concat(d, out_and_ffn_steps(w, il, pos, token));
    asks_concat(e, last);
}

proof fn chunk_tokens_ask(
    w: ModelWeights,
    il: usize,
    first: int,
    n: nat,
    tokens: Seq<i32>,
    row: u32,
    cap: int,
)
    ensures
        asks(chunk_tokens_steps(w, il, first, n, tokens, row, cap)),
    decreases n,
{
    if n == 0 {
        others_ask_nothing(Seq::empty());
    } else {
        let m = (n - 1) as nat;
        let r = rows_after(w, il as int, first, m, row, cap);
        chunk_tokens_ask(w, il, first, m, tokens, row, cap);
        chunk_token_asks(w, il, first, m as int, tokens[m as int], r, cap);
        asks_concat(
            chunk_tokens_steps(w, il, first, m, tokens, row, cap),
            chunk_token_steps(w, il, first, m as int, tokens[m as int], r, cap),
        );
    }
}

proof fn chunk_layers_ask(
    w: ModelWeights,
    n: nat,
    first: int,
    tokens: Seq<i32>,
    rows: Seq<u32>,
    cap: int,
)
    ensures
        asks(chunk_layers_steps(w, n, first, tokens, rows, cap)),
    decreases n,
{
    if n == 0 {
        others_ask_nothing(Seq::empty());
    } else {
        let m = (n - 1) as nat;
        let il = m as usize;
        let nc = tokens.len() as u32;
        let a = hc_in_steps(batch_in(il, nc));
        let b = a + batch_qkv_steps(il, first as u32, nc);
        let c = b + batch_attention_steps(il, first as u32, nc);
        let each = chunk_tokens_steps(w, il, first, tokens.len(), tokens, rows[m as int], cap);
        let last = seq![Step::Swap { a: Buf::BHc, b: Buf::BHcNext }];
        chunk_layers_ask(w, m, first, tokens, rows, cap);
        hc_in_asks(batch_in(il, nc));
        batch_qkv_asks(il, first as u32, nc);
        batch_attention_asks(il, first as u32, nc);
        chunk_tokens_ask(w, il, first, tokens.len(), tokens, rows[m as int], cap);
        others_ask_nothing(last);
        asks_concat(a, batch_qkv_steps(il, first as u32, nc));
        asks_concat(b, batch_attention_steps(il, first as u32, nc));
        asks_concat(c, each);
        asks_concat(c + each, last);
        asks_concat(
            chunk_layers_steps(w, m, first, tokens, rows, cap),
            chunk_layer_steps(w, il, first, tokens, rows[m as int], cap),
        );
    }
}

proof fn chunks_ask(
    w: ModelWeights,
    start: int,
    tokens: Seq<i32>,
    at: int,
    rows: Seq<u32>,
    cap: int,
)
    ensures
        asks(chunks_steps(w, start, tokens, at, rows, cap)),
    decreases tokens.len() - at,
{
    if at < 0 || at >= tokens.len() {
        others_ask_nothing(Seq::empty());
    } else {
        let nc = chunk_size(tokens.len() as int, at);
        let then = all_rows_after(w, start, at as nat, rows, cap);
        let part = tokens.subrange(at, at + nc);
        let table = Weight::Model(ModelSlot::TokenEmbd);
        let a = seq![
            Step::UploadTokens { first: at as usize, count: nc as usize },
            Step::Need(table),
            Step::EmbedTokens { w: table, tokens: Buf::Tokens, out: Buf::BHc, n_tok: nc as u32 },
        ];
        assert(asks(a)) by {
            reveal_with_fuel(asks_from, 4);
            reveal_with_fuel(used_from, 4);
            asks_in_turn(a);
        }
        chunk_layers_ask(w, N_LAYER as nat, start + at, part, then, cap);
        asks_concat(a, chunk_layers_steps(w, N_LAYER as nat, start + at, part, then, cap));
        chunks_ask(w, start, tokens, at + nc, rows, cap);
        asks_concat(
            chunk_steps(w, start + at, tokens, at, nc, then, cap),
            chunks_steps(w, start, tokens, at + nc, rows, cap),
        );
    }
}

/// Taking a prompt asks for every tensor before it reads it, and for none that it does not read.
pub proof fn prompts_ask_for_their_tensors(
    w: ModelWeights,
    start: int,
    tokens: Seq<i32>,
    rows: Seq<u32>,
    cap: int,
)
    ensures
        asks(prefill_steps(w, start, tokens, rows, cap)),
{
    let a = seq![Step::AllocChunk { tokens: chunk_size(tokens.len() as int, 0) as usize }];
    let b = chunks_steps(w, start, tokens, 0, rows, cap);
    let last = seq![Step::Advance { n: tokens.len() as usize }, Step::ReadLogits];
    others_ask_nothing(a);
    others_ask_nothing(last);
    chunks_ask(w, start, tokens, 0, rows, cap);
    output_asks();
    asks_concat(a, b);
    asks_concat(a + b, output_steps());
    asks_concat(a + b + output_steps(), last);
}

/// The tensor that is named as missing is the first that is asked for and not there; where none is
/// named, all that are asked for are there.
pub proof fn the_first_missing_tensor_is_named(w: ModelWeights, steps: Seq<Step>)
    ensures
        match first_missing(w, steps) {
            Some((i, t)) => {
                &&& 0 <= i < steps.len()
                &&& steps[i] == Step::Need(t)
                &&& w.weight(t) is None
                &&& forall|j: int, u: Weight|
                    0 <= j < i && #[trigger] steps[j] == Step::Need(u) ==> #[trigger] w.weight(
                        u,
                    ) is Some
            },
            None => forall|j: int, u: Weight|
                0 <= j < steps.len() && #[trigger] steps[j] == Step::Need(u)
                    ==> #[trigger] w.weight(u) is Some,
        },
    decreases steps.len(),
{
    if steps.len() > 0 {
        let some = steps.drop_last();
        the_first_missing_tensor_is_named(w, some);
        assert forall|j: int| 0 <= j < some.len() implies some[j] == #[trigger] steps[j] by {}
    }
}

/// Where none is named as missing, every tensor that decoding a token reads is in the file.
pub proof fn complete_files_hold_what_decoding_reads(
    w: ModelWeights,
    pos: u32,
    token: i32,
    rows: Seq<u32>,
    cap: int,
    i: int,
    t: Weight,
)
    requires
        first_missing(w, decode_steps(w, pos, token, rows, cap)) is None,
        0 <= i < decode_steps(w, pos, token, rows, cap).len(),
        reads_tensor(decode_steps(w, pos, token, rows, cap)[i], t),
    ensures
        w.weight(t) is Some,
{
    let steps = decode_steps(w, pos, token, rows, cap);
    decoding_asks_for_its_tensors(w, pos, token, rows, cap);
    the_first_missing_tensor_is_named(w, steps);
    assert(asked(steps, i, t));
    let j = choose|j: int| 0 <= j < i && j < steps.len() && #[trigger] steps[j] == Step::Need(t);
    assert(steps[j] == Step::Need(t) && (w.weight(t) is Some || w.weight(t) is None));
}

/// Where none is named as missing, every tensor that taking a prompt reads is in the file.
pub proof fn complete_files_hold_what_prompts_read(
    w: ModelWeights,
    start: int,
    tokens: Seq<i32>,
    rows: Seq<u32>,
    cap: int,
    i: int,
    t: Weight,
)
    requires
        first_missing(w, prefill_steps(w, start, tokens, rows, cap)) is None,
        0 <= i < prefill_steps(w, start, tokens, rows, cap).len(),
        reads_tensor(prefill_steps(w, start, tokens, rows, cap)[i], t),
    ensures
        w.weight(t) is Some,
{
    let steps = prefill_steps(w, start, tokens, rows, cap);
    prompts_ask_for_their_tensors(w, start, tokens, rows, cap);
    the_first_missing_tensor_is_named(w, steps);
    assert(asked(steps, i, t));
    let j = choose|j: int| 0 <= j < i && j < steps.len() && #[trigger] steps[j] == Step::Need(t);
    assert(steps[j] == Step::Need(t) && (w.weight(t) is Some || w.weight(t) is None));
}

} // verus!
