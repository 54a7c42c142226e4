//! What steps over a chunk make of a row, next to what a token makes of it for itself.
use vstd::prelude::*;

use crate::session::agree::{filled, grown, reads_in};
use crate::session::layer::{attn_in, batch_in, hc_in_steps, qkv_steps};
use crate::session::meaning::{args, exec, kernel, lines, output, run, Memory};
use crate::session::prefill::batch_qkv_steps;
use crate::session::step::{Buf, Step};

verus! {

/// The buffer that holds for a chunk what `b` holds for a token.
pub open spec fn chunk_of(b: Buf) -> Buf {
    match b {
        Buf::CurHc => Buf::BHc,
        Buf::FlatHc => Buf::BFlatHc,
        Buf::HcMix => Buf::BHcMix,
        Buf::HcSplit => Buf::BHcSplit,
        Buf::AttnCur => Buf::BAttnCur,
        Buf::AttnNorm => Buf::BAttnNorm,
        Buf::XqI8 => Buf::BXqI8,
        Buf::Xscale => Buf::BXscale,
        Buf::Qr => Buf::BQr,
        Buf::QrNorm => Buf::BQrNorm,
        Buf::Q => Buf::BQ,
        Buf::KvRaw => Buf::BKvRaw,
        Buf::Kv => Buf::BKv,
        _ => b,
    }
}

/// The step over a chunk of `nc` tokens that does to row `r` what `step` does to its row.
pub open spec fn widened(step: Step, nc: u32, r: int) -> Step {
    match step {
        Step::RmsNormPlain { x, out, n, .. } => Step::RmsNormPlain {
            x: chunk_of(x),
            out: chunk_of(out),
            n,
            rows: nc,
        },
        Step::MatmulF16 { w, x, out, in_dim, out_dim, .. } => Step::MatmulF16 {
            w,
            x: chunk_of(x),
            out: chunk_of(out),
            in_dim,
            out_dim,
            n_tok: nc as u64,
        },
        Step::HcSplitNorm { mix, scale, base, residual, norm, split, cur, normed, .. } => {
            Step::HcSplitNorm {
                mix: chunk_of(mix),
                scale,
                base,
                residual: chunk_of(residual),
                norm,
                split: chunk_of(split),
                cur: chunk_of(cur),
                normed: chunk_of(normed),
                rows: nc,
            }
        },
        Step::QuantizeQ8 { x, xq, xscale, in_dim, blocks, .. } => Step::QuantizeQ8 {
            x: chunk_of(x),
            xq: chunk_of(xq),
            xscale: chunk_of(xscale),
            in_dim,
            blocks,
            rows: nc,
        },
        Step::MatmulQ8 { w, xq, xscale, out, in_dim, out_dim, blocks } => Step::MatmulQ8Batch {
            w,
            xq: chunk_of(xq),
            xscale: chunk_of(xscale),
            out: chunk_of(out),
            in_dim,
            out_dim,
            n_tok: nc as u64,
            blocks,
        },
        Step::QkvNorm { qr, qr_w, qr_out, kv, kv_w, kv_out, .. } => Step::QkvNorm {
            qr: chunk_of(qr),
            qr_w,
            qr_out: chunk_of(qr_out),
            kv: chunk_of(kv),
            kv_w,
            kv_out: chunk_of(kv_out),
            rows: nc,
        },
        Step::HeadNorm { x, n_head, head_dim, .. } => Step::HeadNorm {
            x: chunk_of(x),
            n_tok: nc,
            n_head,
            head_dim,
        },
        Step::Rope { x, n_head, head_dim, pos, n_ctx_orig, inverse, layer, .. } => Step::Rope {
            x: chunk_of(x),
            n_tok: nc,
            n_head,
            head_dim,
            pos: (pos - r) as u32,
            n_ctx_orig,
            inverse,
            layer,
        },
        _ => step,
    }
}

/// The step is one of a single row, and has a step that does the same to each row of a chunk.
pub open spec fn widens(step: Step, r: int) -> bool {
    match step {
        Step::RmsNormPlain { x, out, rows, .. } => paired(x) && paired(out) && rows == 1,
        Step::MatmulF16 { x, out, n_tok, .. } => paired(x) && paired(out) && n_tok == 1,
        Step::HcSplitNorm { mix, residual, split, cur, normed, rows, .. } => paired(mix) && paired(
            residual,
        ) && paired(split) && paired(cur) && paired(normed) && rows == 1,
        Step::QuantizeQ8 { x, xq, xscale, rows, .. } => paired(x) && paired(xq) && paired(xscale)
            && rows == 1,
        Step::MatmulQ8 { xq, xscale, out, .. } => paired(xq) && paired(xscale) && paired(out),
        Step::QkvNorm { qr, qr_out, kv, kv_out, rows, .. } => paired(qr) && paired(qr_out)
            && paired(kv) && paired(kv_out) && rows == 1,
        Step::HeadNorm { x, n_tok, .. } => paired(x) && n_tok == 1,
        Step::Rope { x, n_tok, pos, .. } => paired(x) && n_tok == 1 && r <= pos,
        _ => false,
    }
}

/// The buffer has one that holds the same for a chunk.
pub open spec fn paired(b: Buf) -> bool {
    chunk_of(b) != b
}

/// Row `r` of the chunk in the one memory is what the other holds of a token, in the buffers of
/// the set.
pub open spec fn row_agrees<V>(m: Memory<V>, r: int, n: Memory<V>, s: Set<Buf>) -> bool {
    forall|b: Buf| #[trigger]
        s.contains(b) ==> paired(b) && (m.at)(chunk_of(b), r) == (n.at)(b, 0)
}

#[verifier::rlimit(40)]
#[verifier::spinoff_prover]
pub(crate) proof fn widened_step_agrees<V>(
    k: spec_fn(Step, int, Seq<V>) -> V,
    p: Seq<i32>,
    q: Seq<i32>,
    m: Memory<V>,
    n: Memory<V>,
    s: Set<Buf>,
    step: Step,
    nc: u32,
    r: int,
)
    requires
        row_agrees(m, r, n, s),
        reads_in(step, s),
        widens(step, r),
        0 <= r < nc,
    ensures
        row_agrees(exec(k, p, m, widened(step, nc, r)), r, exec(k, q, n, step), grown(s, step)),
{
    reveal(exec);
    let wide = widened(step, nc, r);
    assert(args(m, wide, r) =~= args(n, step, 0));
    assert(kernel(wide, m.tokens, r) == kernel(step, n.tokens, 0));
    assert(lines(step) == 1 && lines(wide) == nc);
    assert forall|b: Buf| #[trigger] grown(s, step).contains(b) implies paired(b) && (exec(
        k,
        p,
        m,
        wide,
    ).at)(chunk_of(b), r) == (exec(k, q, n, step).at)(b, 0) by {
        assert(paired(b));
        assert(output(wide, chunk_of(b)) == output(step, b));
        assert(s.contains(b) ==> (m.at)(chunk_of(b), r) == (n.at)(b, 0));
    }
}

/// How many steps are left from index `i` on.
pub open spec fn left(steps: Seq<Step>, i: int) -> int {
    if i < steps.len() {
        steps.len() - i
    } else {
        0
    }
}

/// From index `i` on, the steps over a chunk are those of a single token from index `j` on, each
/// over all rows of the chunk. Where tensors are asked for does not matter.
pub open spec fn in_step(
    s: Set<Buf>,
    wide: Seq<Step>,
    i: int,
    one: Seq<Step>,
    j: int,
    nc: u32,
    r: int,
) -> bool
    decreases left(wide, i) + left(one, j),
{
    if i < wide.len() && wide[i] is Need {
        in_step(s, wide, i + 1, one, j, nc, r)
    } else if j < one.len() && one[j] is Need {
        in_step(s, wide, i, one, j + 1, nc, r)
    } else if i < wide.len() && j < one.len() {
        &&& reads_in(one[j], s)
        &&& widens(one[j], r)
        &&& wide[i] == widened(one[j], nc, r)
        &&& in_step(grown(s, one[j]), wide, i + 1, one, j + 1, nc, r)
    } else {
        i >= wide.len() && j >= one.len()
    }
}

pub(crate) proof fn chunk_agrees_from<V>(
    k: spec_fn(Step, int, Seq<V>) -> V,
    p: Seq<i32>,
    q: Seq<i32>,
    m: Memory<V>,
    n: Memory<V>,
    s: Set<Buf>,
    wide: Seq<Step>,
    i: int,
    one: Seq<Step>,
    j: int,
    nc: u32,
    r: int,
)
    requires
        0 <= i <= wide.len(),
        0 <= j <= one.len(),
        0 <= r < nc,
        row_agrees(run(k, p, m, wide.take(i)), r, run(k, q, n, one.take(j)), s),
        in_step(s, wide, i, one, j, nc, r),
    ensures
        row_agrees(run(k, p, m, wide), r, run(k, q, n, one), filled(s, one, j)),
    decreases left(wide, i) + left(one, j),
{
    reveal(run);
    reveal(exec);
    let x = run(k, p, m, wide.take(i));
    let y = run(k, q, n, one.take(j));
    if i < wide.len() {
        assert(wide.take(i + 1).drop_last() =~= wide.take(i));
    }
    if j < one.len() {
        assert(one.take(j + 1).drop_last() =~= one.take(j));
    }
    if i < wide.len() && wide[i] is Need {
        assert(row_agrees(exec(k, p, x, wide[i]), r, y, s));
        chunk_agrees_from(k, p, q, m, n, s, wide, i + 1, one, j, nc, r);
    } else if j < one.len() && one[j] is Need {
        assert(row_agrees(x, r, exec(k, q, y, one[j]), s));
        assert(grown(s, one[j]) =~= s);
        chunk_agrees_from(k, p, q, m, n, s, wide, i, one, j + 1, nc, r);
    } else if i < wide.len() {
        widened_step_agrees(k, p, q, x, y, s, one[j], nc, r);
        chunk_agrees_from(k, p, q, m, n, grown(s, one[j]), wide, i + 1, one, j + 1, nc, r);
    } else {
        assert(wide.take(i) =~= wide);
        assert(one.take(j) =~= one);
    }
}

/// A chunk and a token go through the same kernels.
pub(crate) proof fn chunk_agrees<V>(
    k: spec_fn(Step, int, Seq<V>) -> V,
    p: Seq<i32>,
    q: Seq<i32>,
    m: Memory<V>,
    n: Memory<V>,
    s: Set<Buf>,
    wide: Seq<Step>,
    one: Seq<Step>,
    nc: u32,
    r: int,
)
    requires
        0 <= r < nc,
        row_agrees(m, r, n, s),
        in_step(s, wide, 0, one, 0, nc, r),
    ensures
        row_agrees(run(k, p, m, wide), r, run(k, q, n, one), filled(s, one, 0)),
{
    reveal(run);
    assert(wide.take(0) =~= Seq::empty());
    assert(one.take(0) =~= Seq::empty());
    chunk_agrees_from(k, p, q, m, n, s, wide, 0, one, 0, nc, r);
}

pub(crate) proof fn hc_in_widens(s: Set<Buf>, il: usize, nc: u32, r: int)
    requires
        s.contains(Buf::CurHc),
    ensures
        in_step(s, hc_in_steps(batch_in(il, nc)), 0, hc_in_steps(attn_in(il)), 0, nc, r),
        filled(s, hc_in_steps(attn_in(il)), 0).contains(Buf::CurHc),
        filled(s, hc_in_steps(attn_in(il)), 0).contains(Buf::HcSplit),
        filled(s, hc_in_steps(attn_in(il)), 0).contains(Buf::AttnNorm),
{
    reveal_with_fuel(in_step, 15);
    reveal_with_fuel(filled, 8);
}

/// Queries and keys of one token, before the key is stored.
pub open spec fn heads_steps(il: usize, pos: u32) -> Seq<Step> {
    qkv_steps(il, pos).drop_last()
}

#[verifier::rlimit(60)]
#[verifier::spinoff_prover]
pub(crate) proof fn heads_widen(s: Set<Buf>, il: usize, first: u32, nc: u32, r: int)
    requires
        s.contains(Buf::AttnNorm),
        0 <= r,
        first + r <= u32::MAX,
    ensures
        in_step(
            s,
            batch_qkv_steps(il, first, nc),
            0,
            heads_steps(il, (first + r) as u32),
            0,
            nc,
            r,
        ),
        filled(s, heads_steps(il, (first + r) as u32), 0).contains(Buf::Q),
        filled(s, heads_steps(il, (first + r) as u32), 0).contains(Buf::Kv),
{
    reveal_with_fuel(in_step, 29);
    reveal_with_fuel(filled, 15);
}

} // verus!
