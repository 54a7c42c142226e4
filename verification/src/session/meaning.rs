//! What plans compute, for any meaning of the kernels.
//!
//! A memory gives the rows of every buffer: those of the tokens of a chunk in a buffer whose name
//! begins with `B`, and a single one in every other. A kernel makes new rows out of rows. What it
//! makes of them is left open: a kernel that runs over a chunk does to the row of each token what
//! the kernel for a single token does to its row.
use vstd::prelude::*;

use crate::session::step::{Buf, Operand, Step};

verus! {

/// The rows of all buffers, and the tokens of the chunk that were uploaded.
pub struct Memory<V> {
    pub at: spec_fn(Buf, int) -> V,
    pub tokens: Seq<i32>,
}

/// The buffer holds a chunk of tokens.
pub open spec fn is_chunk(b: Buf) -> bool {
    match b {
        Buf::BHc | Buf::BHcNext | Buf::BFlatHc | Buf::BHcMix | Buf::BHcSplit | Buf::BAttnCur
        | Buf::BAttnNorm | Buf::BXqI8 | Buf::BXscale | Buf::BQr | Buf::BQrNorm | Buf::BQ
        | Buf::BKvRaw | Buf::BKv | Buf::BHeads => true,
        _ => false,
    }
}

/// Which of the results of a step a buffer holds after it.
pub open spec fn output(step: Step, b: Buf) -> Option<int> {
    match step {
        Step::EmbedToken { out, .. } => only(out, b),
        Step::EmbedTokens { out, .. } => only(out, b),
        Step::RmsNormPlain { out, .. } => only(out, b),
        Step::RmsNormWeight { out, .. } => only(out, b),
        Step::MatmulF16 { out, .. } => only(out, b),
        Step::HcSplitNorm { split, cur, normed, .. } => either(split, cur, normed, b),
        Step::QuantizeQ8 { xq, xscale, .. } => either(xq, xscale, xscale, b),
        Step::MatmulQ8 { out, .. } => only(out, b),
        Step::MatmulQ8Batch { out, .. } => only(out, b),
        Step::MatmulQ8Grouped { out, .. } => only(out, b),
        Step::MatmulQ8HcExpand { out, out_hc, .. } => either(out, out_hc, out_hc, b),
        Step::QkvNorm { qr_out, kv_out, .. } => either(qr_out, kv_out, kv_out, b),
        Step::HeadNorm { x, .. } => only(x, b),
        Step::Rope { x, .. } => only(x, b),
        Step::StoreRaw { cache, .. } => only(cache, b),
        Step::PrefillRaw { heads, .. } => only(heads, b),
        Step::DecodeMixed { heads, .. } => only(heads, b),
        Step::IndexScore { scores, .. } => only(scores, b),
        Step::IndexTopk { topk, .. } => only(topk, b),
        Step::IndexedMixed { heads, .. } => only(heads, b),
        Step::CompressorStore { state_kv, state_score, .. } => either(
            state_kv,
            state_score,
            state_score,
            b,
        ),
        Step::CompressorPool { out, .. } => only(out, b),
        Step::CompressorShift4 { state_kv, state_score, .. } => either(
            state_kv,
            state_score,
            state_score,
            b,
        ),
        Step::Fp8Quantize { x, .. } => only(x, b),
        Step::CopyAt { dst, .. } => only(dst, b),
        Step::Swiglu { out, .. } => only(out, b),
        Step::RouterSelect { probs, selected, weights, .. } => either(probs, selected, weights, b),
        Step::Q8kQuantize { out, .. } => only(out, b),
        Step::MoeGateUpMid { gate, up, mid, .. } => either(gate, up, mid, b),
        Step::MoeDownSum { out, .. } => only(out, b),
        Step::HcExpand { out, .. } => only(out, b),
        Step::OutputHcWeights { out, .. } => only(out, b),
        Step::HcWeightedSum { out, .. } => only(out, b),
        Step::CopyRow { dst, .. } => only(dst, b),
        Step::Swap { a, b: other } => either(a, other, other, b),
        Step::Need(_) | Step::AllocChunk { .. } | Step::UploadTokens { .. } | Step::EmitRow { .. }
        | Step::Advance { .. } | Step::ReadLogits => None,
    }
}

/// The only result, in the buffer `out`.
pub open spec fn only(out: Buf, b: Buf) -> Option<int> {
    if b == out {
        Some(0)
    } else {
        None
    }
}

/// The results, in up to three buffers.
pub open spec fn either(first: Buf, second: Buf, third: Buf, b: Buf) -> Option<int> {
    if b == first {
        Some(0)
    } else if b == second {
        Some(1)
    } else if b == third {
        Some(2)
    } else {
        None
    }
}

/// How many rows a step makes in each buffer that it writes.
pub open spec fn lines(step: Step) -> int {
    match step {
        Step::EmbedTokens { n_tok, .. } => n_tok as int,
        Step::RmsNormPlain { x, rows, .. } => chunk_lines(x, rows as int),
        Step::RmsNormWeight { x, rows, .. } => chunk_lines(x, rows as int),
        Step::MatmulF16 { x, n_tok, .. } => chunk_lines(x, n_tok as int),
        Step::HcSplitNorm { mix, rows, .. } => chunk_lines(mix, rows as int),
        Step::QuantizeQ8 { x, rows, .. } => chunk_lines(x, rows as int),
        Step::MatmulQ8Batch { n_tok, .. } => n_tok as int,
        Step::QkvNorm { qr, rows, .. } => chunk_lines(qr, rows as int),
        Step::HeadNorm { x, n_tok, .. } => chunk_lines(x, n_tok as int),
        Step::Rope { x, n_tok, .. } => chunk_lines(x, n_tok as int),
        Step::PrefillRaw { n_tok, .. } => n_tok as int,
        _ => 1,
    }
}

/// The rows of a chunk, or the one row of another buffer.
pub open spec fn chunk_lines(x: Buf, rows: int) -> int {
    if is_chunk(x) {
        rows
    } else {
        1
    }
}

/// The rows that a kernel is told of: one of a chunk, all of them otherwise.
pub open spec fn told(x: Buf, rows: u32) -> u32 {
    if is_chunk(x) {
        1
    } else {
        rows
    }
}

/// The table that an operand names, if it names one.
pub open spec fn table(o: Operand) -> Operand {
    match o {
        Operand::Tensor(_) => o,
        Operand::Buffer(_) => Operand::Buffer(Buf::NoTokens),
    }
}

/// What a step does to row `r`: the same of a chunk as of a single token. Buffers do not matter. A
/// row of a chunk that attends together does so as the last of the tokens up to its own.
pub open spec fn kernel(step: Step, tokens: Seq<i32>, r: int) -> Step {
    let any = Buf::NoTokens;
    match step {
        Step::EmbedToken { w, token, .. } => Step::EmbedToken { w, out: any, token },
        Step::EmbedTokens { w, .. } => Step::EmbedToken { w, out: any, token: tokens[r] as u32 },
        Step::RmsNormPlain { x, n, rows, .. } => Step::RmsNormPlain {
            x: any,
            out: any,
            n,
            rows: told(x, rows),
        },
        Step::RmsNormWeight { x, w, n, rows, .. } => Step::RmsNormWeight {
            x: any,
            w,
            out: any,
            n,
            rows: told(x, rows),
        },
        Step::MatmulF16 { w, x, in_dim, out_dim, n_tok, .. } => Step::MatmulF16 {
            w,
            x: any,
            out: any,
            in_dim,
            out_dim,
            n_tok: if is_chunk(x) {
                1
            } else {
                n_tok
            },
        },
        Step::HcSplitNorm { mix, scale, base, norm, rows, .. } => Step::HcSplitNorm {
            mix: any,
            scale,
            base,
            residual: any,
            norm,
            split: any,
            cur: any,
            normed: any,
            rows: told(mix, rows),
        },
        Step::QuantizeQ8 { x, in_dim, blocks, rows, .. } => Step::QuantizeQ8 {
            x: any,
            xq: any,
            xscale: any,
            in_dim,
            blocks,
            rows: told(x, rows),
        },
        Step::MatmulQ8 { w, in_dim, out_dim, blocks, .. } => Step::MatmulQ8 {
            w,
            xq: any,
            xscale: any,
            out: any,
            in_dim,
            out_dim,
            blocks,
        },
        Step::MatmulQ8Batch { w, in_dim, out_dim, blocks, .. } => Step::MatmulQ8 {
            w,
            xq: any,
            xscale: any,
            out: any,
            in_dim,
            out_dim,
            blocks,
        },
        Step::QkvNorm { qr, qr_w, kv_w, rows, .. } => Step::QkvNorm {
            qr: any,
            qr_w,
            qr_out: any,
            kv: any,
            kv_w,
            kv_out: any,
            rows: told(qr, rows),
        },
        Step::HeadNorm { x, n_tok, n_head, head_dim } => Step::HeadNorm {
            x: any,
            n_tok: told(x, n_tok),
            n_head,
            head_dim,
        },
        Step::Rope { x, n_tok, n_head, head_dim, pos, n_ctx_orig, inverse, layer } => Step::Rope {
            x: any,
            n_tok: told(x, n_tok),
            n_head,
            head_dim,
            pos: (pos + r) as u32,
            n_ctx_orig,
            inverse,
            layer,
        },
        Step::MatmulQ8Grouped { w, group_dim, rank, n_groups, blocks, .. } => {
            Step::MatmulQ8Grouped {
                w,
                xq: any,
                xscale: any,
                out: any,
                group_dim,
                rank,
                n_groups,
                blocks,
            }
        },
        Step::MatmulQ8HcExpand { w, in_dim, out_dim, blocks, has_add, .. } => {
            Step::MatmulQ8HcExpand {
                w,
                xq: any,
                xscale: any,
                residual: any,
                split: any,
                out: any,
                add: any,
                out_hc: any,
                in_dim,
                out_dim,
                blocks,
                has_add,
            }
        },
        Step::StoreRaw { raw_cap, pos, n_tok, .. } => Step::StoreRaw {
            kv: any,
            cache: any,
            raw_cap,
            pos,
            n_tok,
        },
        Step::PrefillRaw { sinks, window, .. } => Step::PrefillRaw {
            q: any,
            raw: any,
            sinks,
            heads: any,
            n_tok: (r + 1) as u32,
            window,
        },
        Step::DecodeMixed {
            sinks,
            pos,
            n_raw,
            raw_cap,
            raw_start,
            n_comp,
            window,
            ratio,
            ..
        } => Step::DecodeMixed {
            q: any,
            raw: any,
            comp: any,
            sinks,
            heads: any,
            pos,
            n_raw,
            raw_cap,
            raw_start,
            n_comp,
            window,
            ratio,
        },
        Step::IndexScore { n_comp, pos, ratio, causal, .. } => Step::IndexScore {
            q: any,
            weights: any,
            comp: any,
            scores: any,
            n_comp,
            pos,
            ratio,
            causal,
        },
        Step::IndexTopk { n_comp, top_k, n_sort, .. } => Step::IndexTopk {
            scores: any,
            topk: any,
            n_comp,
            top_k,
            n_sort,
        },
        Step::IndexedMixed {
            sinks,
            pos,
            n_raw,
            raw_cap,
            raw_start,
            n_comp,
            top_k,
            window,
            ratio,
            ..
        } => Step::IndexedMixed {
            q: any,
            raw: any,
            comp: any,
            topk: any,
            sinks,
            heads: any,
            pos,
            n_raw,
            raw_cap,
            raw_start,
            n_comp,
            top_k,
            window,
            ratio,
        },
        Step::CompressorStore { ape, head_dim, ratio, pos, .. } => Step::CompressorStore {
            kv: any,
            sc: any,
            state_kv: any,
            state_score: any,
            ape,
            head_dim,
            ratio,
            pos,
        },
        Step::CompressorPool { head_dim, ratio, .. } => Step::CompressorPool {
            state_kv: any,
            state_score: any,
            out: any,
            head_dim,
            ratio,
        },
        Step::CompressorShift4 { width, .. } => Step::CompressorShift4 {
            state_kv: any,
            state_score: any,
            width,
        },
        Step::Fp8Quantize { head_dim, .. } => Step::Fp8Quantize { x: any, head_dim },
        Step::CopyAt { n, offset, .. } => Step::CopyAt { src: any, dst: any, n, offset },
        Step::Swiglu { n, .. } => Step::Swiglu { gate: any, up: any, out: any, n },
        Step::RouterSelect { bias, hash, token, has_bias, .. } => Step::RouterSelect {
            logits: any,
            bias: table(bias),
            hash: table(hash),
            probs: any,
            selected: any,
            weights: any,
            token,
            has_bias,
        },
        Step::Q8kQuantize { in_dim, blocks, rows, .. } => Step::Q8kQuantize {
            x: any,
            out: any,
            in_dim,
            blocks,
            rows,
        },
        Step::MoeGateUpMid { w_gate, w_up, expert_bytes, row_bytes, .. } => Step::MoeGateUpMid {
            w_gate,
            w_up,
            xq: any,
            selected: any,
            weights: any,
            gate: any,
            up: any,
            mid: any,
            expert_bytes,
            row_bytes,
        },
        Step::MoeDownSum { w_down, expert_bytes, row_bytes, .. } => Step::MoeDownSum {
            w_down,
            midq: any,
            selected: any,
            out: any,
            expert_bytes,
            row_bytes,
        },
        Step::HcExpand { has_add, .. } => Step::HcExpand {
            block: any,
            add: any,
            residual: any,
            split: any,
            out: any,
            has_add,
        },
        Step::OutputHcWeights { scale, base, .. } => Step::OutputHcWeights {
            pre: any,
            scale,
            base,
            out: any,
        },
        Step::HcWeightedSum { .. } => Step::HcWeightedSum { x: any, weights: any, out: any },
        _ => step,
    }
}

/// The row of a buffer that goes with row `r` of a chunk.
pub open spec fn row_of<V>(m: Memory<V>, b: Buf, r: int) -> V {
    (m.at)(
        b,
        if is_chunk(b) {
            r
        } else {
            0
        },
    )
}

/// What an operand holds that can change: a buffer its row, a tensor nothing. The buffer that
/// stands in for a table holds nothing.
pub open spec fn operand_rows<V>(m: Memory<V>, o: Operand) -> Seq<V> {
    match o {
        Operand::Buffer(b) if b != Buf::NoTokens => seq![row_of(m, b, 0)],
        _ => Seq::empty(),
    }
}

/// The rows that a step reads to make row `r`.
pub open spec fn args<V>(m: Memory<V>, step: Step, r: int) -> Seq<V> {
    match step {
        Step::RmsNormPlain { x, .. } => seq![row_of(m, x, r)],
        Step::RmsNormWeight { x, .. } => seq![row_of(m, x, r)],
        Step::MatmulF16 { x, .. } => seq![row_of(m, x, r)],
        Step::HcSplitNorm { mix, residual, .. } => seq![row_of(m, mix, r), row_of(m, residual, r)],
        Step::QuantizeQ8 { x, .. } => seq![row_of(m, x, r)],
        Step::MatmulQ8 { xq, xscale, .. } => seq![row_of(m, xq, r), row_of(m, xscale, r)],
        Step::MatmulQ8Batch { xq, xscale, .. } => seq![row_of(m, xq, r), row_of(m, xscale, r)],
        Step::MatmulQ8Grouped { xq, xscale, .. } => seq![row_of(m, xq, r), row_of(m, xscale, r)],
        Step::MatmulQ8HcExpand { xq, xscale, residual, split, add, has_add, .. } => {
            let read = seq![
                row_of(m, xq, r),
                row_of(m, xscale, r),
                row_of(m, residual, r),
                row_of(m, split, r),
            ];
            if has_add {
                read.push(row_of(m, add, r))
            } else {
                read
            }
        },
        Step::QkvNorm { qr, kv, .. } => seq![row_of(m, qr, r), row_of(m, kv, r)],
        Step::HeadNorm { x, .. } => seq![row_of(m, x, r)],
        Step::Rope { x, .. } => seq![row_of(m, x, r)],
        Step::StoreRaw { kv, cache, n_tok, .. } => seq![row_of(m, cache, r)] + Seq::new(
            n_tok as nat,
            |i: int| row_of(m, kv, i),
        ),
        Step::PrefillRaw { q, raw, .. } => seq![row_of(m, q, r), row_of(m, raw, r)],
        Step::DecodeMixed { q, raw, comp, .. } => seq![
            row_of(m, q, r),
            row_of(m, raw, r),
            row_of(m, comp, r),
        ],
        Step::IndexScore { q, weights, comp, .. } => seq![
            row_of(m, q, r),
            row_of(m, weights, r),
            row_of(m, comp, r),
        ],
        Step::IndexTopk { scores, .. } => seq![row_of(m, scores, r)],
        Step::IndexedMixed { q, raw, comp, topk, .. } => seq![
            row_of(m, q, r),
            row_of(m, raw, r),
            row_of(m, comp, r),
            row_of(m, topk, r),
        ],
        Step::CompressorStore { kv, sc, state_kv, state_score, .. } => seq![
            row_of(m, kv, r),
            row_of(m, sc, r),
            row_of(m, state_kv, r),
            row_of(m, state_score, r),
        ],
        Step::CompressorPool { state_kv, state_score, .. } => seq![
            row_of(m, state_kv, r),
            row_of(m, state_score, r),
        ],
        Step::CompressorShift4 { state_kv, state_score, .. } => seq![
            row_of(m, state_kv, r),
            row_of(m, state_score, r),
        ],
        Step::Fp8Quantize { x, .. } => seq![row_of(m, x, r)],
        Step::CopyAt { src, dst, .. } => seq![row_of(m, src, r), row_of(m, dst, r)],
        Step::Swiglu { gate, up, .. } => seq![row_of(m, gate, r), row_of(m, up, r)],
        Step::RouterSelect { logits, bias, hash, has_bias, .. } => seq![row_of(m, logits, r)] + (
        if has_bias {
            operand_rows(m, bias)
        } else {
            Seq::empty()
        }) + operand_rows(m, hash),
        Step::Q8kQuantize { x, .. } => seq![row_of(m, x, r)],
        Step::MoeGateUpMid { xq, selected, weights, .. } => seq![
            row_of(m, xq, r),
            row_of(m, selected, r),
            row_of(m, weights, r),
        ],
        Step::MoeDownSum { midq, selected, .. } => seq![row_of(m, midq, r), row_of(m, selected, r)],
        Step::HcExpand { block, add, residual, split, has_add, .. } => {
            let read = seq![row_of(m, block, r), row_of(m, residual, r), row_of(m, split, r)];
            if has_add {
                read.push(row_of(m, add, r))
            } else {
                read
            }
        },
        Step::OutputHcWeights { pre, .. } => seq![row_of(m, pre, r)],
        Step::HcWeightedSum { x, weights, .. } => seq![row_of(m, x, r), row_of(m, weights, r)],
        _ => Seq::empty(),
    }
}

/// The row that stands at element `at` of a buffer, in rows of `n`.
pub open spec fn place(b: Buf, at: usize, n: usize) -> int {
    if is_chunk(b) {
        at as int / n as int
    } else {
        0
    }
}

/// The memory after a step. `k` says what a kernel makes of the rows that it reads: the result
/// with a given number.
#[verifier::opaque]
pub open spec fn exec<V>(
    k: spec_fn(Step, int, Seq<V>) -> V,
    prompt: Seq<i32>,
    m: Memory<V>,
    step: Step,
) -> Memory<V> {
    match step {
        Step::UploadTokens { first, count } => Memory {
            tokens: prompt.subrange(first as int, first + count),
            ..m
        },
        Step::CopyRow { src, src_at, dst, dst_at, n } => Memory {
            at: |b: Buf, r: int|
                if b == dst && r == place(dst, dst_at, n) {
                    (m.at)(src, place(src, src_at, n))
                } else {
                    (m.at)(b, r)
                },
            ..m
        },
        Step::Swap { a, b: other } => Memory {
            at: |b: Buf, r: int|
                if b == a {
                    (m.at)(other, r)
                } else if b == other {
                    (m.at)(a, r)
                } else {
                    (m.at)(b, r)
                },
            ..m
        },
        _ => Memory {
            at: |b: Buf, r: int|
                match output(step, b) {
                    Some(j) => if 0 <= r < lines(step) {
                        k(kernel(step, m.tokens, r), j, args(m, step, r))
                    } else {
                        (m.at)(b, r)
                    },
                    None => (m.at)(b, r),
                },
            ..m
        },
    }
}

/// The memory after a list of steps.
#[verifier::opaque]
pub open spec fn run<V>(
    k: spec_fn(Step, int, Seq<V>) -> V,
    prompt: Seq<i32>,
    m: Memory<V>,
    steps: Seq<Step>,
) -> Memory<V>
    decreases steps.len(),
{
    if steps.len() == 0 {
        m
    } else {
        exec(k, prompt, run(k, prompt, m, steps.drop_last()), steps.last())
    }
}

} // verus!
