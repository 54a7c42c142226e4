//! What the tables of the architecture say: how layers compress, how they rotate, how large the
//! buffers are and how the kernels are launched.
use vstd::arithmetic::power2::{lemma2_to64, lemma_pow2_adds, pow2};
use vstd::prelude::*;

use crate::engine::{grid_covers_exactly, LaunchConfig};
use crate::kernels::fp8::magnitude;
use crate::model::{LayerSlot, ModelWeights};
use crate::session::layer::has_indexer;
use crate::session::state::Session;
use crate::session::step::{buf_elems, ratio_of, rope_bits, Buf, Step};

verus! {

/// The first two layers keep no compressed rows; behind them layers with a row for four tokens and
/// layers with a row for 128 tokens take turns, and the former have an indexer where the file has
/// the tensor of its queries.
pub proof fn layers_take_turns(w: ModelWeights, il: int)
    requires
        0 <= il,
    ensures
        il < 2 ==> ratio_of(il) == 0,
        il >= 2 && il % 2 == 0 ==> ratio_of(il) == 4,
        il >= 2 && il % 2 == 1 ==> ratio_of(il) == 128,
        has_indexer(w, il) <==> il >= 2 && il % 2 == 0 && w.layers@[il].slot(
            LayerSlot::IndexerAttnQB,
        ) is Some,
{
}

/// Layers without compressed rows rotate by powers of 10000, as trained. The others rotate by
/// powers of 160000, at a sixteenth of the speed, with all of the correction for longer contexts.
/// The numbers are those that the bit patterns stand for, in units of `2^-149`.
pub proof fn layers_rotate_by_their_parameters(il: int)
    requires
        0 <= il,
    ensures
        il < 2 ==> {
            &&& magnitude(rope_bits(il).freq_base as int) == 10000 * pow2(149)
            &&& magnitude(rope_bits(il).freq_scale as int) == pow2(149)
            &&& magnitude(rope_bits(il).ext_factor as int) == 0
        },
        il >= 2 ==> {
            &&& magnitude(rope_bits(il).freq_base as int) == 160000 * pow2(149)
            &&& 16 * magnitude(rope_bits(il).freq_scale as int) == pow2(149)
            &&& magnitude(rope_bits(il).ext_factor as int) == pow2(149)
        },
{
    power_and_mantissa(0x461C_4000, 140, 0x1C_4000);
    power_and_mantissa(0x481C_4000, 144, 0x1C_4000);
    power_and_mantissa(0x3F80_0000, 127, 0);
    power_and_mantissa(0x3D80_0000, 123, 0);
    lemma2_to64();
    lemma_pow2_adds(10, 139);
    lemma_pow2_adds(4, 139);
    lemma_pow2_adds(23, 126);
    lemma_pow2_adds(23, 122);
    lemma_pow2_adds(4, 145);
    let p = pow2(139) as int;
    assert(pow2(149) == 0x400 * p);
    assert(pow2(143) == 16 * p);
    assert(pow2(149) == 0x80_0000 * pow2(126));
    assert(pow2(145) == 0x80_0000 * pow2(122));
    assert(pow2(149) == 16 * pow2(145));
}

proof fn power_and_mantissa(b: int, e: nat, m: int)
    requires
        e >= 1,
        0 <= m < 0x80_0000,
        b == e * 0x80_0000 + m,
    ensures
        magnitude(b) == (0x80_0000 + m) * pow2((e - 1) as nat),
{
    assert(b / 0x80_0000 == e && b % 0x80_0000 == m);
}

/// A session keeps a window of 128 tokens, and room for a compressed row for every four tokens of
/// its context and two more.
pub proof fn sessions_have_room(s: Session)
    requires
        s.wf(),
    ensures
        s.raw_cap == 128,
        4 * (s.comp_cap - 2) <= s.ctx_size < 4 * (s.comp_cap - 1),
        s.layer_n_comp@.len() == 43,
{
}

/// The buffers of one token hold its rows, and those of a chunk as many rows as the chunk has
/// tokens. The caches hold the window or as many compressed rows as they have room for; a cache
/// that its layer does not use has one element.
pub proof fn buffers_hold_their_rows(cap: int, chunk: int)
    ensures
        buf_elems(Buf::CurHc, cap, chunk) == 4 * 4096,
        buf_elems(Buf::FlatHc, cap, chunk) == 4 * 4096,
        buf_elems(Buf::AfterAttnHc, cap, chunk) == 4 * 4096,
        buf_elems(Buf::AfterFfnHc, cap, chunk) == 4 * 4096,
        buf_elems(Buf::HcMix, cap, chunk) == 4 + 4 + 4 * 4,
        buf_elems(Buf::HcSplit, cap, chunk) == 4 + 4 + 4 * 4,
        buf_elems(Buf::AttnCur, cap, chunk) == 4096,
        buf_elems(Buf::AttnNorm, cap, chunk) == 4096,
        buf_elems(Buf::AttnOut, cap, chunk) == 4096,
        buf_elems(Buf::FfnCur, cap, chunk) == 4096,
        buf_elems(Buf::FfnNorm, cap, chunk) == 4096,
        buf_elems(Buf::SharedOut, cap, chunk) == 4096,
        buf_elems(Buf::OutputEmbd, cap, chunk) == 4096,
        buf_elems(Buf::OutputNorm, cap, chunk) == 4096,
        buf_elems(Buf::Qr, cap, chunk) == 1024,
        buf_elems(Buf::QrNorm, cap, chunk) == 1024,
        buf_elems(Buf::Q, cap, chunk) == 64 * 512,
        buf_elems(Buf::Heads, cap, chunk) == 64 * 512,
        buf_elems(Buf::XqI8, cap, chunk) == 64 * 512,
        32 * buf_elems(Buf::Xscale, cap, chunk) == buf_elems(Buf::XqI8, cap, chunk),
        buf_elems(Buf::KvRaw, cap, chunk) == 512,
        buf_elems(Buf::Kv, cap, chunk) == 512,
        buf_elems(Buf::CompEmitPre, cap, chunk) == 512,
        buf_elems(Buf::CompEmitPost, cap, chunk) == 512,
        buf_elems(Buf::CompKvCur, cap, chunk) == 2 * 512,
        buf_elems(Buf::CompScCur, cap, chunk) == 2 * 512,
        buf_elems(Buf::SharedGate, cap, chunk) == 2048,
        buf_elems(Buf::SharedUp, cap, chunk) == 2048,
        buf_elems(Buf::SharedMid, cap, chunk) == 2048,
        buf_elems(Buf::RouterLogits, cap, chunk) == 256,
        buf_elems(Buf::RouterProbs, cap, chunk) == 256,
        buf_elems(Buf::RouterSelected, cap, chunk) == 6,
        buf_elems(Buf::RouterWeights, cap, chunk) == 6,
        buf_elems(Buf::RoutedGate, cap, chunk) == 6 * 2048,
        buf_elems(Buf::RoutedUp, cap, chunk) == 6 * 2048,
        buf_elems(Buf::RoutedMid, cap, chunk) == 6 * 2048,
        buf_elems(Buf::RoutedOut, cap, chunk) == 6 * 4096,
        buf_elems(Buf::OutputWeights, cap, chunk) == 4,
        buf_elems(Buf::Logits, cap, chunk) == 129280,
        buf_elems(Buf::AttnLow, cap, chunk) == 8 * 1024,
        buf_elems(Buf::IndexCompEmitPre, cap, chunk) == 128,
        buf_elems(Buf::IndexCompEmitPost, cap, chunk) == 128,
        buf_elems(Buf::IndexerQ, cap, chunk) == 64 * 128,
        buf_elems(Buf::IndexerWeights, cap, chunk) == 64,
        buf_elems(Buf::IndexerScores, cap, chunk) == cap,
        buf_elems(Buf::IndexerTopk, cap, chunk) == 512,
        buf_elems(Buf::MoeXq, cap, chunk) == 16 * (4 + 256 + 16 * 2),
        buf_elems(Buf::MoeMidq, cap, chunk) == 6 * 8 * (4 + 256 + 16 * 2),
        buf_elems(Buf::Iq2Grid, cap, chunk) == 256,
        buf_elems(Buf::Iq2Signs, cap, chunk) == 128,
        buf_elems(Buf::NoTokens, cap, chunk) == 0,
        buf_elems(Buf::Tokens, cap, chunk) == chunk,
        buf_elems(Buf::BHc, cap, chunk) == chunk * buf_elems(Buf::CurHc, cap, chunk),
        buf_elems(Buf::BHcNext, cap, chunk) == chunk * buf_elems(Buf::CurHc, cap, chunk),
        buf_elems(Buf::BFlatHc, cap, chunk) == chunk * buf_elems(Buf::FlatHc, cap, chunk),
        buf_elems(Buf::BHcMix, cap, chunk) == chunk * buf_elems(Buf::HcMix, cap, chunk),
        buf_elems(Buf::BHcSplit, cap, chunk) == chunk * buf_elems(Buf::HcSplit, cap, chunk),
        buf_elems(Buf::BAttnCur, cap, chunk) == chunk * buf_elems(Buf::AttnCur, cap, chunk),
        buf_elems(Buf::BAttnNorm, cap, chunk) == chunk * buf_elems(Buf::AttnNorm, cap, chunk),
        buf_elems(Buf::BXqI8, cap, chunk) == chunk * buf_elems(Buf::XqI8, cap, chunk),
        buf_elems(Buf::BXscale, cap, chunk) == chunk * buf_elems(Buf::Xscale, cap, chunk),
        buf_elems(Buf::BQ, cap, chunk) == chunk * buf_elems(Buf::Q, cap, chunk),
        buf_elems(Buf::BHeads, cap, chunk) == chunk * buf_elems(Buf::Heads, cap, chunk),
        buf_elems(Buf::BQr, cap, chunk) == chunk * buf_elems(Buf::Qr, cap, chunk),
        buf_elems(Buf::BQrNorm, cap, chunk) == chunk * buf_elems(Buf::QrNorm, cap, chunk),
        buf_elems(Buf::BKvRaw, cap, chunk) == chunk * buf_elems(Buf::KvRaw, cap, chunk),
        buf_elems(Buf::BKv, cap, chunk) == chunk * buf_elems(Buf::Kv, cap, chunk),
{
}

/// The same of the caches of a layer. A state holds the rows of one window, or two windows of rows
/// of double width where windows overlap.
pub proof fn caches_hold_their_rows(il: usize, cap: int, chunk: int)
    ensures
        buf_elems(Buf::RawCache(il), cap, chunk) == 128 * 512,
        buf_elems(Buf::AttnCompCache(il), cap, chunk) == if il < 2 {
            1
        } else {
            cap * 512
        },
        buf_elems(Buf::AttnStateKv(il), cap, chunk) == if il < 2 {
            1
        } else if il % 2 == 0 {
            2 * 4 * (2 * 512int)
        } else {
            128 * 512int
        },
        buf_elems(Buf::AttnStateScore(il), cap, chunk) == buf_elems(
            Buf::AttnStateKv(il),
            cap,
            chunk,
        ),
        buf_elems(Buf::IndexCompCache(il), cap, chunk) == if il >= 2 && il % 2 == 0 {
            cap * 128
        } else {
            1
        },
        buf_elems(Buf::IndexStateKv(il), cap, chunk) == if il >= 2 && il % 2 == 0 {
            2 * 4 * (2 * 128int)
        } else {
            1
        },
        buf_elems(Buf::IndexStateScore(il), cap, chunk) == buf_elems(
            Buf::IndexStateKv(il),
            cap,
            chunk,
        ),
{
}

/// A launch has just enough blocks for `n` things in a row, of which a block takes `per`, in each
/// of `rows` rows; blocks have `threads` threads.
pub open spec fn covers(
    c: Option<LaunchConfig>,
    n: int,
    per: int,
    rows: int,
    threads: int,
) -> bool {
    match c {
        Some(c) => {
            &&& c.grid_dim.0 * per >= n
            &&& n > 0 ==> (c.grid_dim.0 - 1) * per < n
            &&& n == 0 ==> c.grid_dim.0 == 0
            &&& c.grid_dim.1 == rows
            &&& c.grid_dim.2 == 1
            &&& c.block_dim == (threads as u32, 1u32, 1u32)
        },
        None => false,
    }
}

/// Kernels that work on numbers have a thread for each of them; projections of quantised rows a
/// warp for each result, eight to a block; other kernels a block for each row, head or block of
/// numbers. Only the sort of the scores uses shared memory: eight bytes for each score.
pub proof fn launches_cover_their_work(s: Step)
    requires
        s.launchable(),
    ensures
        match s {
            Step::EmbedToken { .. } => covers(s.config_spec(), 16384, 256, 1, 256),
            Step::EmbedTokens { n_tok, .. } => covers(
                s.config_spec(),
                n_tok * (4 * 4096),
                256,
                1,
                256,
            ),
            Step::Rope { n_tok, n_head, .. } => covers(
                s.config_spec(),
                n_tok * n_head * 32,
                256,
                1,
                256,
            ),
            Step::StoreRaw { n_tok, .. } => covers(s.config_spec(), n_tok * 512, 256, 1, 256),
            Step::CompressorStore { head_dim, ratio, .. } => covers(
                s.config_spec(),
                if ratio == 4 {
                    head_dim + head_dim
                } else {
                    head_dim as int
                },
                256,
                1,
                256,
            ),
            Step::CompressorPool { head_dim, .. } => covers(
                s.config_spec(),
                head_dim as int,
                256,
                1,
                256,
            ),
            Step::CompressorShift4 { width, .. } => covers(
                s.config_spec(),
                4 * width,
                256,
                1,
                256,
            ),
            Step::CopyAt { n, .. } => covers(s.config_spec(), n as int, 256, 1, 256),
            Step::Swiglu { n, .. } => covers(s.config_spec(), n as int, 256, 1, 256),
            Step::HcExpand { .. } => covers(s.config_spec(), 16384, 256, 1, 256),
            Step::OutputHcWeights { .. } => covers(s.config_spec(), 4, 256, 1, 256),
            Step::HcWeightedSum { .. } => covers(s.config_spec(), 4096, 256, 1, 256),
            Step::MatmulQ8 { out_dim, .. } => covers(s.config_spec(), out_dim as int, 8, 1, 256),
            Step::MatmulQ8Batch { out_dim, n_tok, .. } => covers(
                s.config_spec(),
                out_dim as int,
                8,
                n_tok as int,
                256,
            ),
            Step::MatmulQ8Grouped { rank, n_groups, .. } => covers(
                s.config_spec(),
                rank * n_groups,
                8,
                1,
                256,
            ),
            Step::MatmulQ8HcExpand { out_dim, .. } => covers(
                s.config_spec(),
                out_dim as int,
                8,
                1,
                256,
            ),
            Step::MoeGateUpMid { .. } => covers(s.config_spec(), 2048, 128, 6, 256),
            Step::MoeDownSum { .. } => covers(s.config_spec(), 4096, 32, 1, 256),
            Step::RmsNormPlain { rows, .. } => covers(s.config_spec(), rows as int, 1, 1, 256),
            Step::RmsNormWeight { rows, .. } => covers(s.config_spec(), rows as int, 1, 1, 256),
            Step::HcSplitNorm { rows, .. } => covers(s.config_spec(), rows as int, 1, 1, 256),
            Step::MatmulF16 { out_dim, n_tok, .. } => covers(
                s.config_spec(),
                out_dim as int,
                1,
                n_tok as int,
                256,
            ),
            Step::QuantizeQ8 { blocks, rows, .. } => covers(
                s.config_spec(),
                blocks as int,
                1,
                rows as int,
                32,
            ),
            Step::QkvNorm { rows, .. } => covers(s.config_spec(), rows as int, 1, 2, 256),
            Step::HeadNorm { n_tok, n_head, .. } => covers(
                s.config_spec(),
                n_tok * n_head,
                1,
                1,
                256,
            ),
            Step::PrefillRaw { n_tok, .. } => covers(s.config_spec(), n_tok as int, 1, 64, 128),
            Step::DecodeMixed { .. } => covers(s.config_spec(), 1, 1, 64, 256),
            Step::IndexedMixed { .. } => covers(s.config_spec(), 1, 1, 64, 256),
            Step::IndexScore { n_comp, .. } => covers(s.config_spec(), n_comp as int, 1, 1, 128),
            Step::IndexTopk { .. } => covers(s.config_spec(), 1, 1, 1, 256),
            Step::Fp8Quantize { .. } => covers(s.config_spec(), 1, 1, 1, 64),
            Step::RouterSelect { .. } => covers(s.config_spec(), 1, 1, 1, 256),
            Step::Q8kQuantize { blocks, rows, .. } => covers(
                s.config_spec(),
                blocks as int,
                1,
                rows as int,
                256,
            ),
            Step::Need(_) | Step::AllocChunk { .. } | Step::UploadTokens { .. }
            | Step::EmitRow { .. } | Step::CopyRow { .. } | Step::Swap { .. }
            | Step::Advance { .. } | Step::ReadLogits => s.config_spec() is None,
        },
        s.config_spec() matches Some(c) ==> c.shared_mem_bytes == match s {
            Step::IndexTopk { n_sort, .. } => 8 * n_sort,
            _ => 0,
        },
{
    match s {
        Step::EmbedToken { .. } | Step::HcExpand { .. } => grid_covers_exactly(16384, 256),
        Step::EmbedTokens { n_tok, .. } => grid_covers_exactly(n_tok * 16384, 256),
        Step::Rope { n_tok, n_head, .. } => {
            assert(0 <= n_tok * n_head <= 128 * 64) by (nonlinear_arith)
                requires
                    n_tok <= 128,
                    n_head <= 64,
            ;
            grid_covers_exactly(n_tok * n_head * 32, 256);
        },
        Step::StoreRaw { n_tok, .. } => grid_covers_exactly(n_tok * 512, 256),
        Step::CompressorStore { head_dim, ratio, .. } => {
            grid_covers_exactly(2 * head_dim, 256);
            grid_covers_exactly(head_dim as int, 256);
        },
        Step::CompressorPool { head_dim, .. } => grid_covers_exactly(head_dim as int, 256),
        Step::CompressorShift4 { width, .. } => grid_covers_exactly(4 * width, 256),
        Step::CopyAt { n, .. } => grid_covers_exactly(n as int, 256),
        Step::Swiglu { n, .. } => grid_covers_exactly(n as int, 256),
        Step::OutputHcWeights { .. } => grid_covers_exactly(4, 256),
        Step::HcWeightedSum { .. } => grid_covers_exactly(4096, 256),
        Step::MatmulQ8 { out_dim, .. } => grid_covers_exactly(out_dim as int, 8),
        Step::MatmulQ8Batch { out_dim, .. } => grid_covers_exactly(out_dim as int, 8),
        Step::MatmulQ8HcExpand { out_dim, .. } => grid_covers_exactly(out_dim as int, 8),
        Step::MatmulQ8Grouped { rank, n_groups, .. } => {
            assert(0 <= rank * n_groups <= 1024 * 1024) by (nonlinear_arith)
                requires
                    rank <= 1024,
                    n_groups <= 1024,
            ;
            grid_covers_exactly(rank * n_groups, 8);
        },
        Step::HeadNorm { n_tok, n_head, .. } => {
            assert(0 <= n_tok * n_head <= 128 * 64) by (nonlinear_arith)
                requires
                    n_tok <= 128,
                    n_head <= 64,
            ;
        },
        _ => {},
    }
}

} // verus!
