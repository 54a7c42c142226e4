//! Where two memories hold the same, plans of single tokens make the same of them.
use vstd::prelude::*;

use crate::model::{LayerSlot, ModelWeights, Weight, N_LAYER};
use crate::session::compressor::{
    attn_compressor, attn_steps, emit_steps, index_compressor, index_steps, next_row, project_steps,
    shift_steps, Compressor,
};
use crate::session::decode::{decode_steps, embed_steps, layer_steps, layers_steps, output_steps};
use crate::session::laws::{after_calls, next_steps};
use crate::session::layer::{
    attention_steps, attn_in, attn_out_steps, expert_steps, ffn_in, has_indexer, hc_in_steps,
    index_query_steps, merge_steps, mixed_step, moe_steps, out_and_ffn_steps, qkv_steps,
    router_steps, shared_steps, HcIn,
};
use crate::session::meaning::{args, exec, is_chunk, kernel, lines, output, run, Memory};
use crate::session::state::{holds, Counters};
use crate::session::step::{Buf, Operand, Step};

verus! {

/// One list of steps after another.
pub(crate) proof fn run_concat<V>(
    k: spec_fn(Step, int, Seq<V>) -> V,
    p: Seq<i32>,
    m: Memory<V>,
    a: Seq<Step>,
    b: Seq<Step>,
)
    ensures
        run(k, p, m, a + b) == run(k, p, run(k, p, m, a), b),
    decreases b.len(),
{
    reveal(run);
    if b.len() == 0 {
        assert(a + b =~= a);
    } else {
        assert((a + b).drop_last() =~= a + b.drop_last());
        run_concat(k, p, m, a, b.drop_last());
    }
}

/// No steps change nothing.
pub(crate) proof fn run_none<V>(k: spec_fn(Step, int, Seq<V>) -> V, p: Seq<i32>, m: Memory<V>)
    ensures
        run(k, p, m, Seq::empty()) == m,
{
    reveal(run);
}

/// A step leaves the buffers alone that it does not write.
pub(crate) proof fn step_leaves<V>(
    k: spec_fn(Step, int, Seq<V>) -> V,
    p: Seq<i32>,
    m: Memory<V>,
    step: Step,
    b: Buf,
    r: int,
)
    requires
        output(step, b) is None,
    ensures
        (exec(k, p, m, step).at)(b, r) == (m.at)(b, r),
{
    reveal(exec);
}

/// No step of the list writes the buffer.
pub open spec fn untouched(steps: Seq<Step>, b: Buf) -> bool {
    forall|i: int| 0 <= i < steps.len() ==> output(#[trigger] steps[i], b) is None
}

pub(crate) proof fn run_leaves<V>(
    k: spec_fn(Step, int, Seq<V>) -> V,
    p: Seq<i32>,
    m: Memory<V>,
    steps: Seq<Step>,
    b: Buf,
    r: int,
)
    requires
        untouched(steps, b),
    ensures
        (run(k, p, m, steps).at)(b, r) == (m.at)(b, r),
    decreases steps.len(),
{
    reveal(run);
    reveal(exec);
    if steps.len() > 0 {
        let rest = steps.drop_last();
        assert forall|i: int| 0 <= i < rest.len() implies output(#[trigger] rest[i], b) is None by {
            assert(rest[i] == steps[i]);
        }
        run_leaves(k, p, m, rest, b, r);
        assert(output(steps[steps.len() - 1], b) is None);
    }
}

/// Two memories hold the same in the buffers of the set.
pub open spec fn agree<V>(m: Memory<V>, n: Memory<V>, s: Set<Buf>) -> bool {
    forall|b: Buf| #[trigger] s.contains(b) ==> (m.at)(b, 0) == (n.at)(b, 0)
}

pub(crate) proof fn agree_less<V>(m: Memory<V>, n: Memory<V>, t: Set<Buf>, s: Set<Buf>)
    requires
        agree(m, n, t),
        s.subset_of(t),
    ensures
        agree(m, n, s),
{
    assert forall|b: Buf| #[trigger] s.contains(b) implies (m.at)(b, 0) == (n.at)(b, 0) by {
        assert(t.contains(b));
    }
}

/// The set, and the buffers that a step writes.
pub open spec fn grown(s: Set<Buf>, step: Step) -> Set<Buf> {
    Set::new(|b: Buf| s.contains(b) || output(step, b) is Some)
}

/// A single buffer of the set.
pub open spec fn known(s: Set<Buf>, b: Buf) -> bool {
    s.contains(b) && !is_chunk(b)
}

/// A buffer of the set, or what holds nothing that changes.
pub open spec fn known_operand(s: Set<Buf>, o: Operand) -> bool {
    match o {
        Operand::Buffer(b) if b != Buf::NoTokens => known(s, b),
        _ => true,
    }
}

/// The step is one of a single token, and reads buffers of the set only.
pub open spec fn reads_in(step: Step, s: Set<Buf>) -> bool {
    match step {
        Step::EmbedToken { .. } => true,
        Step::RmsNormPlain { x, .. } => known(s, x),
        Step::RmsNormWeight { x, .. } => known(s, x),
        Step::MatmulF16 { x, .. } => known(s, x),
        Step::HcSplitNorm { mix, residual, .. } => known(s, mix) && known(s, residual),
        Step::QuantizeQ8 { x, .. } => known(s, x),
        Step::MatmulQ8 { xq, xscale, .. } => known(s, xq) && known(s, xscale),
        Step::MatmulQ8Grouped { xq, xscale, .. } => known(s, xq) && known(s, xscale),
        Step::MatmulQ8HcExpand { xq, xscale, residual, split, add, has_add, .. } => {
            &&& known(s, xq)
            &&& known(s, xscale)
            &&& known(s, residual)
            &&& known(s, split)
            &&& has_add ==> known(s, add)
        },
        Step::QkvNorm { qr, kv, .. } => known(s, qr) && known(s, kv),
        Step::HeadNorm { x, .. } => known(s, x),
        Step::Rope { x, .. } => known(s, x),
        Step::StoreRaw { kv, cache, n_tok, .. } => known(s, kv) && known(s, cache) && n_tok == 1,
        Step::DecodeMixed { q, raw, comp, .. } => known(s, q) && known(s, raw) && known(s, comp),
        Step::IndexScore { q, weights, comp, .. } => known(s, q) && known(s, weights) && known(
            s,
            comp,
        ),
        Step::IndexTopk { scores, .. } => known(s, scores),
        Step::IndexedMixed { q, raw, comp, topk, .. } => known(s, q) && known(s, raw) && known(
            s,
            comp,
        ) && known(s, topk),
        Step::CompressorStore { kv, sc, state_kv, state_score, .. } => known(s, kv) && known(s, sc)
            && known(s, state_kv) && known(s, state_score),
        Step::CompressorPool { state_kv, state_score, .. } => known(s, state_kv) && known(
            s,
            state_score,
        ),
        Step::CompressorShift4 { state_kv, state_score, .. } => known(s, state_kv) && known(
            s,
            state_score,
        ),
        Step::Fp8Quantize { x, .. } => known(s, x),
        Step::CopyAt { src, dst, .. } => known(s, src) && known(s, dst),
        Step::Swiglu { gate, up, .. } => known(s, gate) && known(s, up),
        Step::RouterSelect { logits, bias, hash, has_bias, .. } => known(s, logits) && (has_bias
            ==> known_operand(s, bias)) && known_operand(s, hash),
        Step::Q8kQuantize { x, .. } => known(s, x),
        Step::MoeGateUpMid { xq, selected, weights, .. } => known(s, xq) && known(s, selected)
            && known(s, weights),
        Step::MoeDownSum { midq, selected, .. } => known(s, midq) && known(s, selected),
        Step::HcExpand { block, add, residual, split, has_add, .. } => {
            &&& known(s, block)
            &&& known(s, residual)
            &&& known(s, split)
            &&& has_add ==> known(s, add)
        },
        Step::OutputHcWeights { pre, .. } => known(s, pre),
        Step::HcWeightedSum { x, weights, .. } => known(s, x) && known(s, weights),
        Step::Swap { a, b } => known(s, a) && known(s, b),
        Step::Need(_) | Step::EmitRow { .. } | Step::Advance { .. } | Step::ReadLogits => true,
        _ => false,
    }
}

/// What is read is the same, so that what is written is.
#[verifier::rlimit(40)]
#[verifier::spinoff_prover]
pub(crate) proof fn step_agrees<V>(
    k: spec_fn(Step, int, Seq<V>) -> V,
    p: Seq<i32>,
    q: Seq<i32>,
    m: Memory<V>,
    n: Memory<V>,
    s: Set<Buf>,
    step: Step,
)
    requires
        agree(m, n, s),
        reads_in(step, s),
    ensures
        agree(exec(k, p, m, step), exec(k, q, n, step), grown(s, step)),
{
    reveal(exec);
    assert(args(m, step, 0) =~= args(n, step, 0));
    assert(kernel(step, m.tokens, 0) == kernel(step, n.tokens, 0));
    assert(!(step is Swap) ==> lines(step) == 1);
    assert forall|b: Buf| #[trigger] grown(s, step).contains(b) implies (exec(k, p, m, step).at)(
        b,
        0,
    ) == (exec(k, q, n, step).at)(b, 0) by {
        assert(s.contains(b) ==> (m.at)(b, 0) == (n.at)(b, 0));
    }
}

/// From the step with index `i` on, every step reads buffers of the set only, or such as an
/// earlier one of them wrote.
pub open spec fn fed(s: Set<Buf>, steps: Seq<Step>, i: int) -> bool
    decreases steps.len() - i,
{
    i < steps.len() ==> reads_in(steps[i], s) && fed(grown(s, steps[i]), steps, i + 1)
}

/// The set, and what the steps from the one with index `i` on write.
pub open spec fn filled(s: Set<Buf>, steps: Seq<Step>, i: int) -> Set<Buf>
    decreases steps.len() - i,
{
    if i < steps.len() {
        filled(grown(s, steps[i]), steps, i + 1)
    } else {
        s
    }
}

pub(crate) proof fn run_agrees_from<V>(
    k: spec_fn(Step, int, Seq<V>) -> V,
    p: Seq<i32>,
    q: Seq<i32>,
    m: Memory<V>,
    n: Memory<V>,
    s: Set<Buf>,
    steps: Seq<Step>,
    i: int,
)
    requires
        0 <= i <= steps.len(),
        agree(run(k, p, m, steps.take(i)), run(k, q, n, steps.take(i)), s),
        fed(s, steps, i),
    ensures
        agree(run(k, p, m, steps), run(k, q, n, steps), filled(s, steps, i)),
    decreases steps.len() - i,
{
    reveal(run);
    if i < steps.len() {
        let x = run(k, p, m, steps.take(i));
        let y = run(k, q, n, steps.take(i));
        step_agrees(k, p, q, x, y, s, steps[i]);
        assert(steps.take(i + 1).drop_last() =~= steps.take(i));
        run_agrees_from(k, p, q, m, n, grown(s, steps[i]), steps, i + 1);
    } else {
        assert(steps.take(i) =~= steps);
    }
}

/// Two memories that hold the same where the steps read hold the same where they write.
pub(crate) proof fn run_agrees<V>(
    k: spec_fn(Step, int, Seq<V>) -> V,
    p: Seq<i32>,
    q: Seq<i32>,
    m: Memory<V>,
    n: Memory<V>,
    s: Set<Buf>,
    steps: Seq<Step>,
)
    requires
        agree(m, n, s),
        fed(s, steps, 0),
    ensures
        agree(run(k, p, m, steps), run(k, q, n, steps), filled(s, steps, 0)),
{
    reveal(run);
    assert(steps.take(0) =~= Seq::empty());
    run_agrees_from(k, p, q, m, n, s, steps, 0);
}

pub(crate) proof fn filled_keeps(s: Set<Buf>, steps: Seq<Step>, i: int, b: Buf)
    requires
        s.contains(b),
    ensures
        filled(s, steps, i).contains(b),
    decreases steps.len() - i,
{
    if i < steps.len() {
        filled_keeps(grown(s, steps[i]), steps, i + 1, b);
    }
}

/// The steps read buffers of `s` only, or such as an earlier one of them wrote, and write those of
/// `t` that are not in `s`.
pub open spec fn leads(s: Set<Buf>, steps: Seq<Step>, t: Set<Buf>) -> bool {
    fed(s, steps, 0) && t.subset_of(filled(s, steps, 0))
}

pub(crate) proof fn part_agrees<V>(
    k: spec_fn(Step, int, Seq<V>) -> V,
    p: Seq<i32>,
    q: Seq<i32>,
    m: Memory<V>,
    n: Memory<V>,
    s: Set<Buf>,
    steps: Seq<Step>,
    t: Set<Buf>,
)
    requires
        agree(m, n, s),
        leads(s, steps, t),
    ensures
        agree(run(k, p, m, steps), run(k, q, n, steps), t),
{
    run_agrees(k, p, q, m, n, s, steps);
}

/// The buffers in which a layer keeps what later tokens read.
pub open spec fn layer_bufs(il: usize) -> Set<Buf> {
    Set::new(
        |b: Buf|
            b == Buf::RawCache(il) || b == Buf::AttnCompCache(il) || b == Buf::AttnStateKv(il) || b
                == Buf::AttnStateScore(il) || b == Buf::IndexCompCache(il) || b
                == Buf::IndexStateKv(il) || b == Buf::IndexStateScore(il),
    )
}

pub(crate) proof fn compressor_leads(s: Set<Buf>, c: Compressor, pos: u32, row: u32)
    requires
        s.contains(Buf::AttnNorm),
        s.contains(c.state_kv),
        s.contains(c.state_score),
        s.contains(c.cache),
        !is_chunk(c.state_kv),
        !is_chunk(c.state_score),
        !is_chunk(c.cache),
        !is_chunk(c.emit_pre),
        !is_chunk(c.emit_post),
    ensures
        leads(s, project_steps(c, pos), s),
        leads(s, emit_steps(c, pos, row), s),
        leads(s, shift_steps(c), s),
{
    reveal_with_fuel(fed, 7);
    assert forall|b: Buf| s.contains(b) implies #[trigger] filled(
        s,
        project_steps(c, pos),
        0,
    ).contains(b) by {
        filled_keeps(s, project_steps(c, pos), 0, b);
    }
    assert forall|b: Buf| s.contains(b) implies #[trigger] filled(
        s,
        emit_steps(c, pos, row),
        0,
    ).contains(b) by {
        filled_keeps(s, emit_steps(c, pos, row), 0, b);
    }
    assert forall|b: Buf| s.contains(b) implies #[trigger] filled(s, shift_steps(c), 0).contains(
        b,
    ) by {
        filled_keeps(s, shift_steps(c), 0, b);
    }
    assert(fed(s, project_steps(c, pos), 0));
    assert(fed(s, emit_steps(c, pos, row), 0));
    assert(fed(s, shift_steps(c), 0));
}

/// Attention of one token over the window and all compressed rows.
pub open spec fn attend_steps(il: usize, pos: u32, n_comp: u32) -> Seq<Step> {
    seq![Step::Need(Weight::Layer(il, LayerSlot::AttnSinks)), mixed_step(il, pos, n_comp)]
}

pub(crate) proof fn lead(s: Set<Buf>, steps: Seq<Step>, x: Buf, y: Buf, z: Buf)
    requires
        fed(s, steps, 0),
        filled(s, steps, 0).contains(x),
        filled(s, steps, 0).contains(y),
        filled(s, steps, 0).contains(z),
    ensures
        leads(s, steps, s.insert(x).insert(y).insert(z)),
{
    assert forall|b: Buf| #[trigger] s.insert(x).insert(y).insert(z).contains(b) implies filled(
        s,
        steps,
        0,
    ).contains(b) by {
        if s.contains(b) {
            filled_keeps(s, steps, 0, b);
        }
    }
}

pub(crate) proof fn lead_two(s: Set<Buf>, steps: Seq<Step>, x: Buf, y: Buf)
    requires
        fed(s, steps, 0),
        filled(s, steps, 0).contains(x),
        filled(s, steps, 0).contains(y),
    ensures
        leads(s, steps, s.insert(x).insert(y)),
{
    lead(s, steps, x, y, y);
    assert(s.insert(x).insert(y).insert(y) =~= s.insert(x).insert(y));
}

pub(crate) proof fn lead_one(s: Set<Buf>, steps: Seq<Step>, x: Buf)
    requires
        fed(s, steps, 0),
        filled(s, steps, 0).contains(x),
    ensures
        leads(s, steps, s.insert(x)),
{
    lead(s, steps, x, x, x);
    assert(s.insert(x).insert(x).insert(x) =~= s.insert(x));
}

pub(crate) proof fn hc_in_leads(s: Set<Buf>, h: HcIn)
    requires
        s.contains(h.x),
        !is_chunk(h.x),
        !is_chunk(h.flat),
        !is_chunk(h.mix),
    ensures
        leads(s, hc_in_steps(h), s.insert(h.split).insert(h.cur).insert(h.normed)),
{
    reveal_with_fuel(fed, 8);
    reveal_with_fuel(filled, 8);
    let x = hc_in_steps(h);
    assert(fed(s, x, 0));
    lead(s, x, h.split, h.cur, h.normed);
}

pub(crate) proof fn qkv_leads(s: Set<Buf>, il: usize, pos: u32)
    requires
        s.contains(Buf::AttnNorm),
        s.contains(Buf::RawCache(il)),
    ensures
        leads(s, qkv_steps(il, pos), s.insert(Buf::Q).insert(Buf::Kv).insert(Buf::QrNorm)),
{
    reveal_with_fuel(fed, 16);
    reveal_with_fuel(filled, 16);
    let x = qkv_steps(il, pos);
    assert(fed(s, x, 0));
    lead(s, x, Buf::Q, Buf::Kv, Buf::QrNorm);
}

pub(crate) proof fn mixed_leads(s: Set<Buf>, il: usize, pos: u32, n_comp: u32)
    requires
        s.contains(Buf::Q),
        s.contains(Buf::RawCache(il)),
        s.contains(Buf::AttnCompCache(il)),
    ensures
        leads(s, attend_steps(il, pos, n_comp), s.insert(Buf::Heads)),
{
    reveal_with_fuel(fed, 3);
    reveal_with_fuel(filled, 3);
    let x = attend_steps(il, pos, n_comp);
    assert(fed(s, x, 0));
    lead_one(s, x, Buf::Heads);
}

pub(crate) proof fn attn_out_leads(s: Set<Buf>, il: usize, pos: u32)
    requires
        s.contains(Buf::Heads),
        s.contains(Buf::CurHc),
        s.contains(Buf::HcSplit),
    ensures
        leads(s, attn_out_steps(il, pos), s.insert(Buf::AfterAttnHc)),
{
    reveal_with_fuel(fed, 8);
    reveal_with_fuel(filled, 8);
    let x = attn_out_steps(il, pos);
    assert(fed(s, x, 0));
    lead_one(s, x, Buf::AfterAttnHc);
}

pub(crate) proof fn shared_leads(s: Set<Buf>, w: ModelWeights, il: usize)
    requires
        s.contains(Buf::FfnNorm),
        holds(w, il as int, LayerSlot::FfnGateShexp),
    ensures
        leads(s, shared_steps(w, il), s.insert(Buf::SharedOut)),
{
    reveal_with_fuel(fed, 10);
    reveal_with_fuel(filled, 10);
    let x = shared_steps(w, il);
    assert(fed(s, x, 0));
    lead_one(s, x, Buf::SharedOut);
}

pub(crate) proof fn router_leads(s: Set<Buf>, w: ModelWeights, il: usize, token: i32)
    requires
        s.contains(Buf::FfnNorm),
    ensures
        leads(
            s,
            router_steps(w, il, token),
            s.insert(Buf::RouterSelected).insert(Buf::RouterWeights),
        ),
{
    reveal_with_fuel(fed, 6);
    reveal_with_fuel(filled, 6);
    let x = router_steps(w, il, token);
    assert(fed(s, x, 0));
    lead_two(s, x, Buf::RouterSelected, Buf::RouterWeights);
}

pub(crate) proof fn expert_leads(s: Set<Buf>, il: usize)
    requires
        s.contains(Buf::FfnNorm),
        s.contains(Buf::RouterSelected),
        s.contains(Buf::RouterWeights),
    ensures
        leads(s, expert_steps(il), s.insert(Buf::RoutedOut)),
{
    reveal_with_fuel(fed, 8);
    reveal_with_fuel(filled, 8);
    let x = expert_steps(il);
    assert(fed(s, x, 0));
    lead_one(s, x, Buf::RoutedOut);
}

pub(crate) proof fn merge_leads(s: Set<Buf>, w: ModelWeights, il: usize)
    requires
        s.contains(Buf::SharedOut),
        s.contains(Buf::AfterAttnHc),
        s.contains(Buf::HcSplit),
        s.contains(Buf::CurHc),
        holds(w, il as int, LayerSlot::FfnGateInp) ==> s.contains(Buf::RoutedOut),
    ensures
        leads(s, merge_steps(w, il), s.insert(Buf::CurHc)),
{
    reveal_with_fuel(fed, 3);
    reveal_with_fuel(filled, 3);
    let x = merge_steps(w, il);
    assert(fed(s, x, 0));
    lead_one(s, x, Buf::CurHc);
}

pub(crate) proof fn output_leads(s: Set<Buf>)
    requires
        s.contains(Buf::CurHc),
    ensures
        leads(s, output_steps(), s.insert(Buf::Logits)),
{
    reveal_with_fuel(fed, 13);
    reveal_with_fuel(filled, 13);
    let x = output_steps();
    assert(fed(s, x, 0));
    lead_one(s, x, Buf::Logits);
}

pub(crate) proof fn embed_leads(s: Set<Buf>, token: i32)
    ensures
        leads(s, embed_steps(token), s.insert(Buf::CurHc)),
{
    reveal_with_fuel(fed, 3);
    reveal_with_fuel(filled, 3);
    let x = embed_steps(token);
    assert(fed(s, x, 0));
    lead_one(s, x, Buf::CurHc);
}

/// One list after another, where both memories go through both.
pub(crate) proof fn next_agrees<V>(
    k: spec_fn(Step, int, Seq<V>) -> V,
    p: Seq<i32>,
    q: Seq<i32>,
    m: Memory<V>,
    n: Memory<V>,
    x: Seq<Step>,
    s: Set<Buf>,
    y: Seq<Step>,
    t: Set<Buf>,
)
    requires
        agree(run(k, p, m, x), run(k, q, n, x), s),
        leads(s, y, t),
    ensures
        agree(run(k, p, m, x + y), run(k, q, n, x + y), t),
{
    run_concat(k, p, m, x, y);
    run_concat(k, q, n, x, y);
    part_agrees(k, p, q, run(k, p, m, x), run(k, q, n, x), s, y, t);
}

/// Attention over all compressed rows, and what follows it in a layer.
pub open spec fn tail_steps(
    w: ModelWeights,
    il: usize,
    pos: u32,
    token: i32,
    n_comp: u32,
) -> Seq<Step> {
    attend_steps(il, pos, n_comp) + out_and_ffn_steps(w, il, pos, token)
}

/// What follows attention in a layer, where both memories go through it.
pub(crate) proof fn rest_agrees<V>(
    k: spec_fn(Step, int, Seq<V>) -> V,
    p: Seq<i32>,
    q: Seq<i32>,
    m: Memory<V>,
    n: Memory<V>,
    s: Set<Buf>,
    w: ModelWeights,
    il: usize,
    pos: u32,
    token: i32,
)
    requires
        agree(m, n, s),
        s.contains(Buf::Heads),
        s.contains(Buf::CurHc),
        s.contains(Buf::HcSplit),
        holds(w, il as int, LayerSlot::FfnGateShexp),
    ensures
        agree(
            run(k, p, m, out_and_ffn_steps(w, il, pos, token)),
            run(k, q, n, out_and_ffn_steps(w, il, pos, token)),
            s,
        ),
{
    let x1 = attn_out_steps(il, pos);
    attn_out_leads(s, il, pos);
    let s1 = s.insert(Buf::AfterAttnHc);
    part_agrees(k, p, q, m, n, s, x1, s1);
    hc_in_leads(s1, ffn_in(il));
    let s2 = s1.insert(Buf::HcSplit).insert(Buf::FfnCur).insert(Buf::FfnNorm);
    let y2 = hc_in_steps(ffn_in(il));
    next_agrees(k, p, q, m, n, x1, s1, y2, s2);
    let x2 = x1 + y2;
    shared_leads(s2, w, il);
    let s3 = s2.insert(Buf::SharedOut);
    let y3 = shared_steps(w, il);
    next_agrees(k, p, q, m, n, x2, s2, y3, s3);
    let x3 = x2 + y3;
    let x4 = x3 + moe_steps(w, il, token);
    let s5 = if holds(w, il as int, LayerSlot::FfnGateInp) {
        router_leads(s3, w, il, token);
        let s4 = s3.insert(Buf::RouterSelected).insert(Buf::RouterWeights);
        let r = router_steps(w, il, token);
        next_agrees(k, p, q, m, n, x3, s3, r, s4);
        expert_leads(s4, il);
        let s5 = s4.insert(Buf::RoutedOut);
        next_agrees(k, p, q, m, n, x3 + r, s4, expert_steps(il), s5);
        assert(x3 + r + expert_steps(il) =~= x4);
        s5
    } else {
        assert(x4 =~= x3);
        s3
    };
    merge_leads(s5, w, il);
    let s6 = s5.insert(Buf::CurHc);
    let y6 = merge_steps(w, il);
    next_agrees(k, p, q, m, n, x4, s5, y6, s6);
    let all = out_and_ffn_steps(w, il, pos, token);
    assert(x4 + y6 =~= all);
    agree_less(run(k, p, m, all), run(k, q, n, all), s6, s);
}

pub(crate) proof fn tail_agrees<V>(
    k: spec_fn(Step, int, Seq<V>) -> V,
    p: Seq<i32>,
    q: Seq<i32>,
    m: Memory<V>,
    n: Memory<V>,
    s: Set<Buf>,
    w: ModelWeights,
    il: usize,
    pos: u32,
    token: i32,
    n_comp: u32,
)
    requires
        agree(m, n, s),
        s.contains(Buf::Q),
        s.contains(Buf::RawCache(il)),
        s.contains(Buf::AttnCompCache(il)),
        s.contains(Buf::CurHc),
        s.contains(Buf::HcSplit),
        holds(w, il as int, LayerSlot::FfnGateShexp),
    ensures
        agree(
            run(k, p, m, tail_steps(w, il, pos, token, n_comp)),
            run(k, q, n, tail_steps(w, il, pos, token, n_comp)),
            s,
        ),
{
    let x = attend_steps(il, pos, n_comp);
    let y = out_and_ffn_steps(w, il, pos, token);
    mixed_leads(s, il, pos, n_comp);
    let t = s.insert(Buf::Heads);
    part_agrees(k, p, q, m, n, s, x, t);
    rest_agrees(k, p, q, run(k, p, m, x), run(k, q, n, x), t, w, il, pos, token);
    run_concat(k, p, m, x, y);
    run_concat(k, q, n, x, y);
    agree_less(run(k, p, m, x + y), run(k, q, n, x + y), t, s);
}

/// A buffer that no step of a single token writes but those of a layer's caches.
pub open spec fn lasting(b: Buf) -> bool {
    is_chunk(b) || exists|il: usize| #[trigger] layer_bufs(il).contains(b)
}

pub(crate) proof fn untouched_concat(a: Seq<Step>, b: Seq<Step>, x: Buf)
    requires
        untouched(a, x),
        untouched(b, x),
    ensures
        untouched(a + b, x),
{
    assert forall|i: int| 0 <= i < (a + b).len() implies output(
        #[trigger] (a + b)[i],
        x,
    ) is None by {
        if i < a.len() {
            assert((a + b)[i] == a[i]);
        } else {
            assert((a + b)[i] == b[i - a.len()]);
        }
    }
}

/// No step after the caches are written writes a buffer that lasts.
pub(crate) proof fn tail_leaves(
    w: ModelWeights,
    il: usize,
    pos: u32,
    token: i32,
    n_comp: u32,
    b: Buf,
)
    requires
        lasting(b),
    ensures
        untouched(tail_steps(w, il, pos, token, n_comp), b),
{
    let x0 = attend_steps(il, pos, n_comp);
    let y1 = attn_out_steps(il, pos);
    let y2 = hc_in_steps(ffn_in(il));
    let y3 = shared_steps(w, il);
    let y4 = moe_steps(w, il, token);
    let y5 = merge_steps(w, il);
    untouched_concat(router_steps(w, il, token), expert_steps(il), b);
    untouched_concat(y1, y2, b);
    untouched_concat(y1 + y2, y3, b);
    untouched_concat(y1 + y2 + y3, y4, b);
    untouched_concat(y1 + y2 + y3 + y4, y5, b);
    untouched_concat(x0, y1 + y2 + y3 + y4 + y5, b);
}

/// The compressors write the caches and the states of their layer, and no other buffer that lasts;
/// nor do they write what attention and the rest of the layer read.
pub(crate) proof fn compressors_leave(
    w: ModelWeights,
    il: usize,
    pos: u32,
    row: u32,
    cap: int,
    b: Buf,
)
    requires
        (lasting(b) && !layer_bufs(il).contains(b)) || b == Buf::RawCache(il) || b == Buf::Q || b
            == Buf::CurHc || b == Buf::HcSplit || b == Buf::AttnNorm,
    ensures
        untouched(index_steps(w, il, pos, row, cap) + attn_steps(w, il, pos, row, cap), b),
{
    let i = index_compressor(il);
    let a = attn_compressor(il);
    untouched_concat(project_steps(i, pos), emit_steps(i, pos, row), b);
    untouched_concat(project_steps(i, pos) + emit_steps(i, pos, row), shift_steps(i), b);
    untouched_concat(project_steps(a, pos), emit_steps(a, pos, row), b);
    let x = project_steps(a, pos) + emit_steps(a, pos, row);
    untouched_concat(x, shift_steps(a), b);
    untouched_concat(x + shift_steps(a), seq![Step::EmitRow { layer: il }], b);
    untouched_concat(
        index_steps(w, il, pos, row, cap),
        attn_steps(w, il, pos, row, cap),
        b,
    );
}

/// The buffers of a layer but for its window.
pub open spec fn compressed_bufs(il: usize) -> Set<Buf> {
    layer_bufs(il).remove(Buf::RawCache(il))
}

pub(crate) proof fn compressors_agree<V>(
    k: spec_fn(Step, int, Seq<V>) -> V,
    p: Seq<i32>,
    q: Seq<i32>,
    m: Memory<V>,
    n: Memory<V>,
    s: Set<Buf>,
    w: ModelWeights,
    il: usize,
    pos: u32,
    row: u32,
    cap: int,
)
    requires
        agree(m, n, s),
        s.contains(Buf::AttnNorm),
        compressed_bufs(il).subset_of(s),
    ensures
        ({
            let x = index_steps(w, il, pos, row, cap) + attn_steps(w, il, pos, row, cap);
            agree(run(k, p, m, x), run(k, q, n, x), s)
        }),
{
    let i = index_compressor(il);
    let a = attn_compressor(il);
    let own = compressed_bufs(il);
    assert(own.contains(Buf::AttnCompCache(il)) && own.contains(Buf::AttnStateKv(il))
        && own.contains(Buf::AttnStateScore(il)));
    assert(own.contains(Buf::IndexCompCache(il)) && own.contains(Buf::IndexStateKv(il))
        && own.contains(Buf::IndexStateScore(il)));
    compressor_leads(s, i, pos, row);
    compressor_leads(s, a, pos, row);
    run_none(k, p, m);
    run_none(k, q, n);
    let x = index_steps(w, il, pos, row, cap);
    let y = attn_steps(w, il, pos, row, cap);
    part_agrees(k, p, q, m, n, s, project_steps(i, pos), s);
    next_agrees(k, p, q, m, n, project_steps(i, pos), s, emit_steps(i, pos, row), s);
    next_agrees(
        k,
        p,
        q,
        m,
        n,
        project_steps(i, pos) + emit_steps(i, pos, row),
        s,
        shift_steps(i),
        s,
    );
    assert(agree(run(k, p, m, x), run(k, q, n, x), s));
    next_agrees(k, p, q, m, n, x, s, project_steps(a, pos), s);
    let x1 = x + project_steps(a, pos);
    next_agrees(k, p, q, m, n, x1, s, emit_steps(a, pos, row), s);
    let x2 = x1 + emit_steps(a, pos, row);
    next_agrees(k, p, q, m, n, x2, s, shift_steps(a), s);
    let x3 = x2 + shift_steps(a);
    let last = seq![Step::EmitRow { layer: il }];
    assert(leads(s, last, s)) by {
        reveal_with_fuel(fed, 2);
        assert forall|b: Buf| s.contains(b) implies #[trigger] filled(s, last, 0).contains(b) by {
            filled_keeps(s, last, 0, b);
        }
    }
    next_agrees(k, p, q, m, n, x3, s, last, s);
    assert(x3 + last =~= x + (project_steps(a, pos) + emit_steps(a, pos, row) + shift_steps(a)
        + last));
}

/// A step at the end of a list.
pub(crate) proof fn run_push<V>(
    k: spec_fn(Step, int, Seq<V>) -> V,
    p: Seq<i32>,
    m: Memory<V>,
    x: Seq<Step>,
    a: Step,
)
    ensures
        run(k, p, m, x.push(a)) == exec(k, p, run(k, p, m, x), a),
        run(k, p, m, seq![a]) == exec(k, p, m, a),
{
    assert(x.push(a).drop_last() =~= x);
    assert(seq![a].drop_last() =~= Seq::empty());
    reveal_with_fuel(run, 2);
}

/// Every layer has a shared expert. Without one a layer takes up what another left.
pub open spec fn shares(w: ModelWeights) -> bool {
    forall|il: usize| il < N_LAYER ==> #[trigger] holds(w, il as int, LayerSlot::FfnGateShexp)
}

/// The memory after the tokens were decoded, each as the next one, where the counters were `c`.
pub open spec fn decoded<V>(
    k: spec_fn(Step, int, Seq<V>) -> V,
    w: ModelWeights,
    cap: int,
    c: Counters,
    tokens: Seq<i32>,
    m: Memory<V>,
) -> Memory<V>
    decreases tokens.len(),
{
    if tokens.len() == 0 {
        m
    } else {
        let rest = tokens.drop_last();
        run(
            k,
            Seq::empty(),
            decoded(k, w, cap, c, rest, m),
            next_steps(w, cap, after_calls(w, cap, c, rest), tokens.last()),
        )
    }
}

/// The caches of all layers hold the same.
pub open spec fn caches_agree<V>(m: Memory<V>, n: Memory<V>) -> bool {
    forall|il: usize| il < N_LAYER ==> #[trigger] agree(m, n, layer_bufs(il))
}

pub(crate) proof fn query_leads(s: Set<Buf>, w: ModelWeights, il: usize, pos: u32)
    requires
        s.contains(Buf::QrNorm),
        s.contains(Buf::AttnCur),
        has_indexer(w, il as int),
    ensures
        leads(
            s,
            index_query_steps(w, il, pos),
            s.insert(Buf::IndexerQ).insert(Buf::IndexerWeights),
        ),
{
    reveal_with_fuel(fed, 6);
    reveal_with_fuel(filled, 6);
    let x = index_query_steps(w, il, pos);
    assert(fed(s, x, 0));
    lead_two(s, x, Buf::IndexerQ, Buf::IndexerWeights);
}

pub(crate) proof fn attention_leads(s: Set<Buf>, w: ModelWeights, il: usize, pos: u32, row: u32)
    requires
        s.contains(Buf::Q),
        s.contains(Buf::RawCache(il)),
        s.contains(Buf::AttnCompCache(il)),
        s.contains(Buf::IndexCompCache(il)),
        has_indexer(w, il as int) ==> s.contains(Buf::IndexerQ) && s.contains(Buf::IndexerWeights),
    ensures
        leads(
            s,
            attention_steps(w, il, pos, row),
            s.insert(Buf::Heads),
        ),
{
    reveal_with_fuel(fed, 5);
    reveal_with_fuel(filled, 5);
    let x = attention_steps(w, il, pos, row);
    assert(fed(s, x, 0));
    lead_one(s, x, Buf::Heads);
}

/// What a layer makes of a token depends on its residual streams and on the caches of the layer.
pub(crate) proof fn layer_agrees<V>(
    k: spec_fn(Step, int, Seq<V>) -> V,
    p: Seq<i32>,
    q: Seq<i32>,
    m: Memory<V>,
    n: Memory<V>,
    s: Set<Buf>,
    w: ModelWeights,
    il: usize,
    pos: u32,
    token: i32,
    row: u32,
    cap: int,
)
    requires
        agree(m, n, s),
        s.contains(Buf::CurHc),
        layer_bufs(il).subset_of(s),
        holds(w, il as int, LayerSlot::FfnGateShexp),
    ensures
        agree(
            run(k, p, m, layer_steps(w, il, pos, token, row, cap)),
            run(k, q, n, layer_steps(w, il, pos, token, row, cap)),
            s,
        ),
{
    let own = layer_bufs(il);
    assert(own.contains(Buf::RawCache(il)) && own.contains(Buf::AttnCompCache(il))
        && own.contains(Buf::IndexCompCache(il)));
    let x1 = hc_in_steps(attn_in(il));
    hc_in_leads(s, attn_in(il));
    let s1 = s.insert(Buf::HcSplit).insert(Buf::AttnCur).insert(Buf::AttnNorm);
    part_agrees(k, p, q, m, n, s, x1, s1);
    let y2 = qkv_steps(il, pos);
    qkv_leads(s1, il, pos);
    let s2 = s1.insert(Buf::Q).insert(Buf::Kv).insert(Buf::QrNorm);
    next_agrees(k, p, q, m, n, x1, s1, y2, s2);
    let x2 = x1 + y2;
    let y3 = index_query_steps(w, il, pos);
    let x3 = x2 + y3;
    let s3 = if has_indexer(w, il as int) {
        query_leads(s2, w, il, pos);
        let s3 = s2.insert(Buf::IndexerQ).insert(Buf::IndexerWeights);
        next_agrees(k, p, q, m, n, x2, s2, y3, s3);
        s3
    } else {
        assert(x3 =~= x2);
        s2
    };
    let y4 = index_steps(w, il, pos, row, cap) + attn_steps(w, il, pos, row, cap);
    let x4 = x3 + y4;
    assert forall|b: Buf| #[trigger] compressed_bufs(il).contains(b) implies s3.contains(b) by {
        assert(own.contains(b));
    }
    compressors_agree(
        k,
        p,
        q,
        run(k, p, m, x3),
        run(k, q, n, x3),
        s3,
        w,
        il,
        pos,
        row,
        cap,
    );
    run_concat(k, p, m, x3, y4);
    run_concat(k, q, n, x3, y4);
    let after = next_row(w, il as int, pos as int, row, cap);
    let y5 = attention_steps(w, il, pos, after);
    let x5 = x4 + y5;
    attention_leads(s3, w, il, pos, after);
    let s5 = s3.insert(Buf::Heads);
    next_agrees(k, p, q, m, n, x4, s3, y5, s5);
    let y6 = out_and_ffn_steps(w, il, pos, token);
    rest_agrees(k, p, q, run(k, p, m, x5), run(k, q, n, x5), s5, w, il, pos, token);
    run_concat(k, p, m, x5, y6);
    run_concat(k, q, n, x5, y6);
    let all = layer_steps(w, il, pos, token, row, cap);
    assert(x5 + y6 =~= all);
    agree_less(run(k, p, m, all), run(k, q, n, all), s5, s);
}

/// The caches of all layers, and the residual streams of a token.
pub open spec fn kept() -> Set<Buf> {
    Set::new(
        |b: Buf|
            b == Buf::CurHc || exists|il: usize|
                il < N_LAYER && #[trigger] layer_bufs(il).contains(b),
    )
}

pub(crate) proof fn layers_agree<V>(
    k: spec_fn(Step, int, Seq<V>) -> V,
    m: Memory<V>,
    n: Memory<V>,
    w: ModelWeights,
    l: nat,
    pos: u32,
    token: i32,
    rows: Seq<u32>,
    cap: int,
)
    requires
        agree(m, n, kept()),
        l <= N_LAYER,
        shares(w),
    ensures
        agree(
            run(k, Seq::empty(), m, layers_steps(w, l, pos, token, rows, cap)),
            run(k, Seq::empty(), n, layers_steps(w, l, pos, token, rows, cap)),
            kept(),
        ),
    decreases l,
{
    if l == 0 {
        run_none(k, Seq::empty(), m);
        run_none(k, Seq::empty(), n);
    } else {
        let o = (l - 1) as nat;
        let q = Seq::<i32>::empty();
        layers_agree(k, m, n, w, o, pos, token, rows, cap);
        let x = layers_steps(w, o, pos, token, rows, cap);
        let y = layer_steps(w, o as usize, pos, token, rows[o as int], cap);
        run_concat(k, q, m, x, y);
        run_concat(k, q, n, x, y);
        assert(holds(w, o as usize as int, LayerSlot::FfnGateShexp));
        layer_agrees(
            k,
            q,
            q,
            run(k, q, m, x),
            run(k, q, n, x),
            kept(),
            w,
            o as usize,
            pos,
            token,
            rows[o as int],
            cap,
        );
    }
}

/// The steps that end a plan write nothing.
pub(crate) proof fn endings_write_nothing(x: Seq<Step>)
    requires
        forall|i: int|
            0 <= i < x.len() ==> (#[trigger] x[i] is Advance) || x[i] is ReadLogits,
    ensures
        forall|b: Buf| #[trigger] untouched(x, b),
{
    assert forall|b: Buf| #[trigger] untouched(x, b) by {
        assert forall|i: int| 0 <= i < x.len() implies output(#[trigger] x[i], b) is None by {}
    }
}

/// The logits and the caches after the last layer.
pub(crate) proof fn ends_agree<V>(
    k: spec_fn(Step, int, Seq<V>) -> V,
    p: Seq<i32>,
    q: Seq<i32>,
    m: Memory<V>,
    n: Memory<V>,
    x: Seq<Step>,
    y: Seq<Step>,
)
    requires
        agree(m, n, kept()),
        forall|b: Buf| #[trigger] untouched(x, b),
        forall|b: Buf| #[trigger] untouched(y, b),
    ensures
        ({
            let e = run(k, p, m, output_steps() + x);
            let d = run(k, q, n, output_steps() + y);
            &&& caches_agree(e, d)
            &&& (e.at)(Buf::Logits, 0) == (d.at)(Buf::Logits, 0)
        }),
{
    output_leads(kept());
    let t = kept().insert(Buf::Logits);
    part_agrees(k, p, q, m, n, kept(), output_steps(), t);
    let m1 = run(k, p, m, output_steps());
    let n1 = run(k, q, n, output_steps());
    run_concat(k, p, m, output_steps(), x);
    run_concat(k, q, n, output_steps(), y);
    let e = run(k, p, m1, x);
    let d = run(k, q, n1, y);
    assert forall|b: Buf| #[trigger] t.contains(b) implies (e.at)(b, 0) == (d.at)(b, 0) by {
        assert(untouched(x, b) && untouched(y, b));
        run_leaves(k, p, m1, x, b, 0);
        run_leaves(k, q, n1, y, b, 0);
    }
    assert forall|il: usize| il < N_LAYER implies #[trigger] agree(e, d, layer_bufs(il)) by {
        assert forall|b: Buf| #[trigger] layer_bufs(il).contains(b) implies (e.at)(b, 0) == (d.at)(
            b,
            0,
        ) by {
            assert(t.contains(b));
        }
    }
    assert(t.contains(Buf::Logits));
}

/// What a token computes depends on the caches alone: from memories that hold the same there, it
/// gives the same logits and leaves the same caches.
pub(crate) proof fn token_reads_caches<V>(
    k: spec_fn(Step, int, Seq<V>) -> V,
    m: Memory<V>,
    n: Memory<V>,
    w: ModelWeights,
    pos: u32,
    token: i32,
    rows: Seq<u32>,
    cap: int,
)
    requires
        caches_agree(m, n),
        shares(w),
    ensures
        ({
            let x = decode_steps(w, pos, token, rows, cap).push(Step::Advance { n: 1 });
            let e = run(k, Seq::empty(), m, x);
            let d = run(k, Seq::empty(), n, x);
            &&& caches_agree(e, d)
            &&& (e.at)(Buf::Logits, 0) == (d.at)(Buf::Logits, 0)
        }),
{
    let q = Seq::<i32>::empty();
    let embed = embed_steps(token);
    let layers = layers_steps(w, N_LAYER as nat, pos, token, rows, cap);
    let last = seq![Step::ReadLogits, Step::Advance { n: 1 }];
    let x = decode_steps(w, pos, token, rows, cap).push(Step::Advance { n: 1 });
    assert(x =~= embed + layers + (output_steps() + last));
    run_concat(k, q, m, embed + layers, output_steps() + last);
    run_concat(k, q, n, embed + layers, output_steps() + last);
    run_concat(k, q, m, embed, layers);
    run_concat(k, q, n, embed, layers);
    let caches = kept().remove(Buf::CurHc);
    assert forall|b: Buf| #[trigger] caches.contains(b) implies (m.at)(b, 0) == (n.at)(b, 0) by {
        let il = choose|il: usize| il < N_LAYER && #[trigger] layer_bufs(il).contains(b);
        assert(agree(m, n, layer_bufs(il)));
    }
    embed_leads(caches, token);
    let t = caches.insert(Buf::CurHc);
    part_agrees(k, q, q, m, n, caches, embed, t);
    assert(t =~= kept());
    layers_agree(
        k,
        run(k, q, m, embed),
        run(k, q, n, embed),
        w,
        N_LAYER as nat,
        pos,
        token,
        rows,
        cap,
    );
    endings_write_nothing(last);
    ends_agree(
        k,
        q,
        q,
        run(k, q, m, embed + layers),
        run(k, q, n, embed + layers),
        last,
        last,
    );
}

/// What tokens compute when they are decoded one after the other depends on the caches alone: from
/// memories that hold the same there, the last one gives the same logits, and the caches are the
/// same after it.
pub proof fn decoding_reads_the_caches_alone<V>(
    k: spec_fn(Step, int, Seq<V>) -> V,
    w: ModelWeights,
    cap: int,
    c: Counters,
    tokens: Seq<i32>,
    m: Memory<V>,
    n: Memory<V>,
)
    requires
        shares(w),
        caches_agree(m, n),
    ensures
        caches_agree(decoded(k, w, cap, c, tokens, m), decoded(k, w, cap, c, tokens, n)),
        tokens.len() > 0 ==> (decoded(k, w, cap, c, tokens, m).at)(Buf::Logits, 0) == (decoded(
            k,
            w,
            cap,
            c,
            tokens,
            n,
        ).at)(Buf::Logits, 0),
    decreases tokens.len(),
{
    if tokens.len() > 0 {
        let rest = tokens.drop_last();
        decoding_reads_the_caches_alone(k, w, cap, c, rest, m, n);
        let then = after_calls(w, cap, c, rest);
        token_reads_caches(
            k,
            decoded(k, w, cap, c, rest, m),
            decoded(k, w, cap, c, rest, n),
            w,
            then.n_filled as u32,
            tokens.last(),
            then.n_comp,
            cap,
        );
    }
}

} // verus!
