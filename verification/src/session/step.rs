//! Device buffers and device operations.
use vstd::prelude::*;

use crate::engine::{launch, Engine, LaunchConfig};
use crate::model::{
    ceil_div, Weight, N_EMBD, N_EXPERT, N_EXPERT_USED, N_FF_EXP, N_HC, N_HEAD, N_HEAD_DIM,
    N_INDEXER_HEAD, N_INDEXER_HEAD_DIM, N_INDEXER_TOP_K, N_SWA, N_VOCAB,
};

verus! {

/// Elements of the residual stream of one token: `N_HC * N_EMBD`.
pub const HC_DIM: usize = 16384;

/// Mixing coefficients of one token: `2 * N_HC + N_HC * N_HC`.
pub const MIX_HC: usize = 24;

/// Rank of the query projection.
pub const Q_RANK: usize = 1024;

/// Query elements of one token: `N_HEAD * N_HEAD_DIM`.
pub const Q_DIM: usize = 32768;

/// Low-rank attention output of one token: `N_OUT_GROUP * N_LORA_O`.
pub const LOW_DIM: usize = 8192;

/// Attention output elements of one group of heads.
pub const GROUP_DIM: usize = 4096;

/// Indexer query elements of one token: `N_INDEXER_HEAD * N_INDEXER_HEAD_DIM`.
pub const INDEXER_Q_DIM: usize = 8192;

/// Half the rotated dimensions of a head: the pairs that rotary embedding turns.
pub const ROT_PAIRS: usize = 32;

/// Bytes of a block of 256 activations: scale, 256 values, 16 partial sums.
pub const Q8K_BLOCK_BYTES: usize = 292;

/// Blocks of 256 in an embedding row.
pub const MOE_XQ_BLOCKS: u32 = 16;

/// Blocks of 256 in the hidden row of an expert.
pub const MOE_MID_BLOCKS: u32 = 8;

/// Entries of the codebook and of the sign table of two-bit weights.
pub const IQ2_GRID_LEN: usize = 256;

pub const IQ2_SIGNS_LEN: usize = 128;

/// The context length that rotary scaling starts from.
pub const ROPE_ORIG_CTX: u32 = 65536;

/// Tokens for which a layer keeps one compressed row; 0 where it keeps none.
pub open spec fn ratio_of(il: int) -> u32 {
    if il < 2 {
        0
    } else if il % 2 == 0 {
        4
    } else {
        128
    }
}

/// Tokens for which layer `il` keeps one compressed row; 0 where it keeps none.
pub fn compress_ratio(il: usize) -> (r: u32)
    ensures
        r == ratio_of(il as int),
{
    if il < 2 {
        0
    } else if il % 2 == 0 {
        4
    } else {
        128
    }
}

/// The rotary parameters of a layer, as bit patterns of 32-bit floating-point numbers.
#[derive(Debug, Clone, Copy, PartialEq, Eq, Structural)]
pub struct RopeBits {
    /// 10000 for layers without compressed rows, 160000 for the others.
    pub freq_base: u32,
    /// 1 for layers without compressed rows, 1/16 for the others.
    pub freq_scale: u32,
    /// 0 for layers without compressed rows, 1 for the others.
    pub ext_factor: u32,
}

/// The rotary parameters of a layer.
pub open spec fn rope_bits(il: int) -> RopeBits {
    if ratio_of(il) == 0 {
        RopeBits { freq_base: 0x461C_4000, freq_scale: 0x3F80_0000, ext_factor: 0 }
    } else {
        RopeBits { freq_base: 0x481C_4000, freq_scale: 0x3D80_0000, ext_factor: 0x3F80_0000 }
    }
}

/// The rotary parameters of layer `il`.
pub fn rope_params(il: usize) -> (r: RopeBits)
    ensures
        r == rope_bits(il as int),
{
    if compress_ratio(il) == 0 {
        RopeBits { freq_base: 0x461C_4000, freq_scale: 0x3F80_0000, ext_factor: 0 }
    } else {
        RopeBits { freq_base: 0x481C_4000, freq_scale: 0x3D80_0000, ext_factor: 0x3F80_0000 }
    }
}

/// The device buffers of a session. Those whose names begin with `B` hold a chunk of tokens.
#[derive(Debug, Clone, Copy, PartialEq, Eq, Structural, Hash)]
pub enum Buf {
    CurHc,
    FlatHc,
    HcMix,
    HcSplit,
    AttnCur,
    AttnNorm,
    Qr,
    QrNorm,
    Q,
    KvRaw,
    Kv,
    CompKvCur,
    CompScCur,
    Heads,
    AttnOut,
    AfterAttnHc,
    FfnCur,
    FfnNorm,
    SharedGate,
    SharedUp,
    SharedMid,
    SharedOut,
    RouterLogits,
    RouterProbs,
    RouterSelected,
    RouterWeights,
    RoutedGate,
    RoutedUp,
    RoutedMid,
    RoutedOut,
    AfterFfnHc,
    OutputWeights,
    OutputEmbd,
    OutputNorm,
    Logits,
    XqI8,
    Xscale,
    AttnLow,
    CompEmitPre,
    CompEmitPost,
    IndexCompEmitPre,
    IndexCompEmitPost,
    IndexerQ,
    IndexerWeights,
    IndexerScores,
    IndexerTopk,
    MoeXq,
    MoeMidq,
    Iq2Grid,
    Iq2Signs,
    RawCache(usize),
    AttnCompCache(usize),
    AttnStateKv(usize),
    AttnStateScore(usize),
    IndexCompCache(usize),
    IndexStateKv(usize),
    IndexStateScore(usize),
    /// No tokens: stands in for a table that a kernel does not read.
    NoTokens,
    Tokens,
    BHc,
    BHcNext,
    BFlatHc,
    BHcMix,
    BHcSplit,
    BAttnCur,
    BAttnNorm,
    BXqI8,
    BXscale,
    BQr,
    BQrNorm,
    BQ,
    BKvRaw,
    BKv,
    BHeads,
}

/// An operand that is either a weight tensor or a buffer.
#[derive(Debug, Clone, Copy, PartialEq, Eq, Structural)]
pub enum Operand {
    Tensor(Weight),
    Buffer(Buf),
}

/// Rows and width of a layer's compressor state: two windows of rows of double width where a
/// row covers four tokens, one window of rows of single width otherwise.
pub open spec fn state_len(ratio: u32, head_dim: int) -> int {
    if ratio == 4 {
        8 * (2 * head_dim)
    } else {
        ratio * head_dim
    }
}

/// Elements of a buffer, for caches of `comp_cap` compressed rows and chunks of `chunk` tokens.
/// A layer that does not need a buffer has one of a single element.
pub open spec fn buf_elems(b: Buf, comp_cap: int, chunk: int) -> int {
    match b {
        Buf::CurHc | Buf::FlatHc | Buf::AfterAttnHc | Buf::AfterFfnHc => HC_DIM as int,
        Buf::HcMix | Buf::HcSplit => MIX_HC as int,
        Buf::AttnCur | Buf::AttnNorm | Buf::AttnOut | Buf::FfnCur | Buf::FfnNorm | Buf::SharedOut
        | Buf::OutputEmbd | Buf::OutputNorm => N_EMBD as int,
        Buf::Qr | Buf::QrNorm => Q_RANK as int,
        Buf::Q | Buf::Heads | Buf::XqI8 => Q_DIM as int,
        Buf::Xscale => 1024,
        Buf::KvRaw | Buf::Kv | Buf::CompEmitPre | Buf::CompEmitPost => N_HEAD_DIM as int,
        Buf::CompKvCur | Buf::CompScCur => 2 * N_HEAD_DIM,
        Buf::SharedGate | Buf::SharedUp | Buf::SharedMid => N_FF_EXP as int,
        Buf::RouterLogits | Buf::RouterProbs => N_EXPERT as int,
        Buf::RouterSelected | Buf::RouterWeights => N_EXPERT_USED as int,
        Buf::RoutedGate | Buf::RoutedUp | Buf::RoutedMid => N_EXPERT_USED * N_FF_EXP,
        Buf::RoutedOut => N_EXPERT_USED * N_EMBD,
        Buf::OutputWeights => N_HC as int,
        Buf::Logits => N_VOCAB as int,
        Buf::AttnLow => LOW_DIM as int,
        Buf::IndexCompEmitPre | Buf::IndexCompEmitPost => N_INDEXER_HEAD_DIM as int,
        Buf::IndexerQ => INDEXER_Q_DIM as int,
        Buf::IndexerWeights => N_INDEXER_HEAD as int,
        Buf::IndexerScores => comp_cap,
        Buf::IndexerTopk => N_INDEXER_TOP_K as int,
        Buf::MoeXq => MOE_XQ_BLOCKS * Q8K_BLOCK_BYTES,
        Buf::MoeMidq => N_EXPERT_USED * MOE_MID_BLOCKS * Q8K_BLOCK_BYTES,
        Buf::Iq2Grid => IQ2_GRID_LEN as int,
        Buf::Iq2Signs => IQ2_SIGNS_LEN as int,
        Buf::RawCache(_) => N_SWA * N_HEAD_DIM,
        Buf::AttnCompCache(il) => if ratio_of(il as int) != 0 {
            comp_cap * N_HEAD_DIM
        } else {
            1
        },
        Buf::AttnStateKv(il) | Buf::AttnStateScore(il) => if ratio_of(il as int) != 0 {
            state_len(ratio_of(il as int), N_HEAD_DIM as int)
        } else {
            1
        },
        Buf::IndexCompCache(il) => if ratio_of(il as int) == 4 {
            comp_cap * N_INDEXER_HEAD_DIM
        } else {
            1
        },
        Buf::IndexStateKv(il) | Buf::IndexStateScore(il) => if ratio_of(il as int) == 4 {
            state_len(4, N_INDEXER_HEAD_DIM as int)
        } else {
            1
        },
        Buf::NoTokens => 0,
        Buf::Tokens => chunk,
        Buf::BHc | Buf::BHcNext | Buf::BFlatHc => chunk * HC_DIM,
        Buf::BHcMix | Buf::BHcSplit => chunk * MIX_HC,
        Buf::BAttnCur | Buf::BAttnNorm => chunk * N_EMBD,
        Buf::BXqI8 | Buf::BQ | Buf::BHeads => chunk * Q_DIM,
        Buf::BXscale => chunk * 1024,
        Buf::BQr | Buf::BQrNorm => chunk * Q_RANK,
        Buf::BKvRaw | Buf::BKv => chunk * N_HEAD_DIM,
    }
}

/// Elements to allocate for a buffer.
pub fn buf_len(b: Buf, comp_cap: usize, chunk: usize) -> (r: usize)
    requires
        comp_cap * N_HEAD_DIM <= usize::MAX,
        chunk <= N_SWA,
    ensures
        r == buf_elems(b, comp_cap as int, chunk as int),
{
    match b {
        Buf::CurHc | Buf::FlatHc | Buf::AfterAttnHc | Buf::AfterFfnHc => HC_DIM,
        Buf::HcMix | Buf::HcSplit => MIX_HC,
        Buf::AttnCur | Buf::AttnNorm | Buf::AttnOut | Buf::FfnCur | Buf::FfnNorm | Buf::SharedOut
        | Buf::OutputEmbd | Buf::OutputNorm => N_EMBD,
        Buf::Qr | Buf::QrNorm => Q_RANK,
        Buf::Q | Buf::Heads | Buf::XqI8 => Q_DIM,
        Buf::Xscale => 1024,
        Buf::KvRaw | Buf::Kv | Buf::CompEmitPre | Buf::CompEmitPost => N_HEAD_DIM,
        Buf::CompKvCur | Buf::CompScCur => 2 * N_HEAD_DIM,
        Buf::SharedGate | Buf::SharedUp | Buf::SharedMid => N_FF_EXP,
        Buf::RouterLogits | Buf::RouterProbs => N_EXPERT,
        Buf::RouterSelected | Buf::RouterWeights => N_EXPERT_USED,
        Buf::RoutedGate | Buf::RoutedUp | Buf::RoutedMid => N_EXPERT_USED * N_FF_EXP,
        Buf::RoutedOut => N_EXPERT_USED * N_EMBD,
        Buf::OutputWeights => N_HC,
        Buf::Logits => N_VOCAB,
        Buf::AttnLow => LOW_DIM,
        Buf::IndexCompEmitPre | Buf::IndexCompEmitPost => N_INDEXER_HEAD_DIM,
        Buf::IndexerQ => INDEXER_Q_DIM,
        Buf::IndexerWeights => N_INDEXER_HEAD,
        Buf::IndexerScores => comp_cap,
        Buf::IndexerTopk => N_INDEXER_TOP_K,
        Buf::MoeXq => MOE_XQ_BLOCKS as usize * Q8K_BLOCK_BYTES,
        Buf::MoeMidq => N_EXPERT_USED * MOE_MID_BLOCKS as usize * Q8K_BLOCK_BYTES,
        Buf::Iq2Grid => IQ2_GRID_LEN,
        Buf::Iq2Signs => IQ2_SIGNS_LEN,
        Buf::RawCache(_) => N_SWA * N_HEAD_DIM,
        Buf::AttnCompCache(il) => if compress_ratio(il) != 0 {
            comp_cap * N_HEAD_DIM
        } else {
            1
        },
        Buf::AttnStateKv(il) | Buf::AttnStateScore(il) => match compress_ratio(il) {
            0 => 1,
            4 => 8 * (2 * N_HEAD_DIM),
            ratio => ratio as usize * N_HEAD_DIM,
        },
        Buf::IndexCompCache(il) => if compress_ratio(il) == 4 {
            comp_cap * N_INDEXER_HEAD_DIM
        } else {
            1
        },
        Buf::IndexStateKv(il) | Buf::IndexStateScore(il) => if compress_ratio(il) == 4 {
            8 * (2 * N_INDEXER_HEAD_DIM)
        } else {
            1
        },
        Buf::NoTokens => 0,
        Buf::Tokens => chunk,
        Buf::BHc | Buf::BHcNext | Buf::BFlatHc => chunk * HC_DIM,
        Buf::BHcMix | Buf::BHcSplit => chunk * MIX_HC,
        Buf::BAttnCur | Buf::BAttnNorm => chunk * N_EMBD,
        Buf::BXqI8 | Buf::BQ | Buf::BHeads => chunk * Q_DIM,
        Buf::BXscale => chunk * 1024,
        Buf::BQr | Buf::BQrNorm => chunk * Q_RANK,
        Buf::BKvRaw | Buf::BKv => chunk * N_HEAD_DIM,
    }
}

/// One operation of a plan: a kernel launch, a copy, or a change of the session's counters.
#[derive(Debug, Clone, Copy, PartialEq, Eq, Structural)]
#[allow(inconsistent_fields)]
pub enum Step {
    /// The tensor is needed from here on; a plan fails here where the file lacks it.
    Need(Weight),
    /// Allocates the chunk buffers, for chunks of up to `tokens` tokens.
    AllocChunk { tokens: usize },
    /// Uploads tokens `first .. first + count` of the prompt to `Tokens`.
    UploadTokens { first: usize, count: usize },
    EmbedToken { w: Weight, out: Buf, token: u32 },
    EmbedTokens { w: Weight, tokens: Buf, out: Buf, n_tok: u32 },
    RmsNormPlain { x: Buf, out: Buf, n: u32, rows: u32 },
    RmsNormWeight { x: Buf, w: Weight, out: Buf, n: u32, rows: u32 },
    MatmulF16 { w: Weight, x: Buf, out: Buf, in_dim: u64, out_dim: u64, n_tok: u64 },
    /// Splits the mixing coefficients, sums the streams by them, and normalises the sum.
    HcSplitNorm {
        mix: Buf,
        scale: Weight,
        base: Weight,
        residual: Buf,
        norm: Weight,
        split: Buf,
        cur: Buf,
        normed: Buf,
        rows: u32,
    },
    QuantizeQ8 { x: Buf, xq: Buf, xscale: Buf, in_dim: u64, blocks: u64, rows: u32 },
    MatmulQ8 {
        w: Weight,
        xq: Buf,
        xscale: Buf,
        out: Buf,
        in_dim: u64,
        out_dim: u64,
        blocks: u64,
    },
    MatmulQ8Batch {
        w: Weight,
        xq: Buf,
        xscale: Buf,
        out: Buf,
        in_dim: u64,
        out_dim: u64,
        n_tok: u64,
        blocks: u64,
    },
    MatmulQ8Grouped {
        w: Weight,
        xq: Buf,
        xscale: Buf,
        out: Buf,
        group_dim: u64,
        rank: u64,
        n_groups: u32,
        blocks: u64,
    },
    /// Projects, and mixes the result into the streams of the residual.
    MatmulQ8HcExpand {
        w: Weight,
        xq: Buf,
        xscale: Buf,
        residual: Buf,
        split: Buf,
        out: Buf,
        add: Buf,
        out_hc: Buf,
        in_dim: u64,
        out_dim: u64,
        blocks: u64,
        has_add: bool,
    },
    QkvNorm {
        qr: Buf,
        qr_w: Weight,
        qr_out: Buf,
        kv: Buf,
        kv_w: Weight,
        kv_out: Buf,
        rows: u32,
    },
    HeadNorm { x: Buf, n_tok: u32, n_head: u32, head_dim: u32 },
    /// Rotary embedding with the parameters of a layer.
    Rope {
        x: Buf,
        n_tok: u32,
        n_head: u32,
        head_dim: u32,
        pos: u32,
        n_ctx_orig: u32,
        inverse: bool,
        layer: usize,
    },
    StoreRaw { kv: Buf, cache: Buf, raw_cap: u32, pos: u32, n_tok: u32 },
    PrefillRaw { q: Buf, raw: Buf, sinks: Weight, heads: Buf, n_tok: u32, window: u32 },
    DecodeMixed {
        q: Buf,
        raw: Buf,
        comp: Buf,
        sinks: Weight,
        heads: Buf,
        pos: u32,
        n_raw: u32,
        raw_cap: u32,
        raw_start: u32,
        n_comp: u32,
        window: u32,
        ratio: u32,
    },
    IndexScore {
        q: Buf,
        weights: Buf,
        comp: Buf,
        scores: Buf,
        n_comp: u32,
        pos: u32,
        ratio: u32,
        causal: bool,
    },
    IndexTopk { scores: Buf, topk: Buf, n_comp: u32, top_k: u32, n_sort: u32 },
    IndexedMixed {
        q: Buf,
        raw: Buf,
        comp: Buf,
        topk: Buf,
        sinks: Weight,
        heads: Buf,
        pos: u32,
        n_raw: u32,
        raw_cap: u32,
        raw_start: u32,
        n_comp: u32,
        top_k: u32,
        window: u32,
        ratio: u32,
    },
    CompressorStore {
        kv: Buf,
        sc: Buf,
        state_kv: Buf,
        state_score: Buf,
        ape: Weight,
        head_dim: u32,
        ratio: u32,
        pos: u32,
    },
    CompressorPool { state_kv: Buf, state_score: Buf, out: Buf, head_dim: u32, ratio: u32 },
    CompressorShift4 { state_kv: Buf, state_score: Buf, width: u32 },
    Fp8Quantize { x: Buf, head_dim: u32 },
    /// Copies all of `src` to `dst`, from element `offset` on.
    CopyAt { src: Buf, dst: Buf, n: usize, offset: u32 },
    /// One more compressed row of the layer is in its cache.
    EmitRow { layer: usize },
    Swiglu { gate: Buf, up: Buf, out: Buf, n: usize },
    RouterSelect {
        logits: Buf,
        bias: Operand,
        hash: Operand,
        probs: Buf,
        selected: Buf,
        weights: Buf,
        token: i32,
        has_bias: bool,
    },
    Q8kQuantize { x: Buf, out: Buf, in_dim: u32, blocks: u32, rows: u32 },
    MoeGateUpMid {
        w_gate: Weight,
        w_up: Weight,
        xq: Buf,
        selected: Buf,
        weights: Buf,
        gate: Buf,
        up: Buf,
        mid: Buf,
        expert_bytes: u64,
        row_bytes: u64,
    },
    MoeDownSum {
        w_down: Weight,
        midq: Buf,
        selected: Buf,
        out: Buf,
        expert_bytes: u64,
        row_bytes: u64,
    },
    HcExpand {
        block: Buf,
        add: Buf,
        residual: Buf,
        split: Buf,
        out: Buf,
        has_add: bool,
    },
    OutputHcWeights { pre: Buf, scale: Weight, base: Weight, out: Buf },
    HcWeightedSum { x: Buf, weights: Buf, out: Buf },
    /// Copies `n` elements from `src`, from `src_at` on, to `dst`, from `dst_at` on.
    CopyRow { src: Buf, src_at: usize, dst: Buf, dst_at: usize, n: usize },
    /// Exchanges two buffers of the same length.
    Swap { a: Buf, b: Buf },
    /// The state of `n` more tokens is in the caches.
    Advance { n: usize },
    ReadLogits,
}

impl Step {
    /// The launch of a kernel step; `None` for a step that launches no kernel.
    pub open spec fn config_spec(self) -> Option<LaunchConfig> {
        match self {
            Step::EmbedToken { .. } => Some(grid1(HC_DIM as int)),
            Step::EmbedTokens { n_tok, .. } => Some(grid1(n_tok * HC_DIM)),
            Step::RmsNormPlain { rows, .. } => Some(launch(rows as int, 1, 256, 0)),
            Step::RmsNormWeight { rows, .. } => Some(launch(rows as int, 1, 256, 0)),
            Step::MatmulF16 { out_dim, n_tok, .. } => Some(
                launch(out_dim as int, n_tok as int, 256, 0),
            ),
            Step::HcSplitNorm { rows, .. } => Some(launch(rows as int, 1, 256, 0)),
            Step::QuantizeQ8 { blocks, rows, .. } => Some(
                launch(blocks as int, rows as int, 32, 0),
            ),
            Step::MatmulQ8 { out_dim, .. } => Some(
                launch(ceil_div(out_dim as int, 8), 1, 256, 0),
            ),
            Step::MatmulQ8Batch { out_dim, n_tok, .. } => Some(
                launch(ceil_div(out_dim as int, 8), n_tok as int, 256, 0),
            ),
            Step::MatmulQ8Grouped { rank, n_groups, .. } => Some(
                launch(ceil_div(rank * n_groups, 8), 1, 256, 0),
            ),
            Step::MatmulQ8HcExpand { out_dim, .. } => Some(
                launch(ceil_div(out_dim as int, 8), 1, 256, 0),
            ),
            Step::QkvNorm { rows, .. } => Some(launch(rows as int, 2, 256, 0)),
            Step::HeadNorm { n_tok, n_head, .. } => Some(launch(n_tok * n_head, 1, 256, 0)),
            Step::Rope { n_tok, n_head, .. } => Some(grid1(n_tok * n_head * ROT_PAIRS)),
            Step::StoreRaw { n_tok, .. } => Some(grid1(n_tok * N_HEAD_DIM)),
            Step::PrefillRaw { n_tok, .. } => Some(launch(n_tok as int, N_HEAD as int, 128, 0)),
            Step::DecodeMixed { .. } => Some(launch(1, N_HEAD as int, 256, 0)),
            Step::IndexScore { n_comp, .. } => Some(launch(n_comp as int, 1, 128, 0)),
            Step::IndexTopk { n_sort, .. } => Some(launch(1, 1, 256, n_sort * 8)),
            Step::IndexedMixed { .. } => Some(launch(1, N_HEAD as int, 256, 0)),
            Step::CompressorStore { head_dim, ratio, .. } => Some(
                grid1(comp_width(ratio, head_dim as int)),
            ),
            Step::CompressorPool { head_dim, .. } => Some(grid1(head_dim as int)),
            Step::CompressorShift4 { width, .. } => Some(grid1(4 * width)),
            Step::Fp8Quantize { .. } => Some(launch(1, 1, 64, 0)),
            Step::CopyAt { n, .. } => Some(grid1(n as int)),
            Step::Swiglu { n, .. } => Some(grid1(n as int)),
            Step::RouterSelect { .. } => Some(launch(1, 1, 256, 0)),
            Step::Q8kQuantize { blocks, rows, .. } => Some(
                launch(blocks as int, rows as int, 256, 0),
            ),
            Step::MoeGateUpMid { .. } => Some(
                launch(ceil_div(N_FF_EXP as int, 128), N_EXPERT_USED as int, 256, 0),
            ),
            Step::MoeDownSum { .. } => Some(launch(ceil_div(N_EMBD as int, 32), 1, 256, 0)),
            Step::HcExpand { .. } => Some(grid1(HC_DIM as int)),
            Step::OutputHcWeights { .. } => Some(grid1(N_HC as int)),
            Step::HcWeightedSum { .. } => Some(grid1(N_EMBD as int)),
            _ => None,
        }
    }

    /// The sizes of the step are those of a launch.
    pub open spec fn launchable(self) -> bool {
        match self {
            Step::EmbedTokens { n_tok, .. } => n_tok <= N_SWA,
            Step::MatmulF16 { out_dim, n_tok, .. } => out_dim <= 0x10000 && n_tok <= N_SWA,
            Step::QuantizeQ8 { blocks, .. } => blocks <= 0x10000,
            Step::MatmulQ8 { out_dim, .. } => out_dim <= N_VOCAB,
            Step::MatmulQ8Batch { out_dim, n_tok, .. } => out_dim <= N_VOCAB && n_tok <= N_SWA,
            Step::MatmulQ8Grouped { rank, n_groups, .. } => rank <= 1024 && n_groups <= 1024,
            Step::MatmulQ8HcExpand { out_dim, .. } => out_dim <= N_VOCAB,
            Step::HeadNorm { n_tok, n_head, .. } => n_tok <= N_SWA && n_head <= 64,
            Step::Rope { n_tok, n_head, .. } => n_tok <= N_SWA && n_head <= 64,
            Step::StoreRaw { n_tok, .. } => n_tok <= N_SWA,
            Step::IndexTopk { n_sort, .. } => n_sort <= 0x1000_0000,
            Step::CompressorStore { head_dim, .. } => head_dim <= 512,
            Step::CompressorPool { head_dim, .. } => head_dim <= 512,
            Step::CompressorShift4 { width, .. } => width <= 1024,
            Step::CopyAt { n, .. } => n <= 512,
            Step::Swiglu { n, .. } => n <= 0x10000,
            _ => true,
        }
    }

    /// The launch of a kernel step; `None` for a step that launches no kernel.
    pub fn config(&self) -> (r: Option<LaunchConfig>)
        requires
            self.launchable(),
        ensures
            r == self.config_spec(),
    {
        match *self {
            Step::EmbedToken { .. } => Some(Engine::cfg1d(HC_DIM, 256)),
            Step::EmbedTokens { n_tok, .. } => Some(Engine::cfg1d(n_tok as usize * HC_DIM, 256)),
            Step::RmsNormPlain { rows, .. } => Some(blocks_of(rows, 1, 256, 0)),
            Step::RmsNormWeight { rows, .. } => Some(blocks_of(rows, 1, 256, 0)),
            Step::MatmulF16 { out_dim, n_tok, .. } => Some(
                blocks_of(out_dim as u32, n_tok as u32, 256, 0),
            ),
            Step::HcSplitNorm { rows, .. } => Some(blocks_of(rows, 1, 256, 0)),
            Step::QuantizeQ8 { blocks, rows, .. } => Some(blocks_of(blocks as u32, rows, 32, 0)),
            Step::MatmulQ8 { out_dim, .. } => Some(Engine::cfg_warp8(out_dim as usize, 1)),
            Step::MatmulQ8Batch { out_dim, n_tok, .. } => Some(
                Engine::cfg_warp8(out_dim as usize, n_tok as usize),
            ),
            Step::MatmulQ8Grouped { rank, n_groups, .. } => {
                assert(rank * n_groups <= 1024 * 1024) by (nonlinear_arith)
                    requires
                        rank <= 1024,
                        n_groups <= 1024,
                ;
                Some(Engine::cfg_warp8(rank as usize * n_groups as usize, 1))
            },
            Step::MatmulQ8HcExpand { out_dim, .. } => Some(Engine::cfg_warp8(out_dim as usize, 1)),
            Step::QkvNorm { rows, .. } => Some(blocks_of(rows, 2, 256, 0)),
            Step::HeadNorm { n_tok, n_head, .. } => {
                assert(n_tok * n_head <= 128 * 64) by (nonlinear_arith)
                    requires
                        n_tok <= 128,
                        n_head <= 64,
                ;
                Some(blocks_of(n_tok * n_head, 1, 256, 0))
            },
            Step::Rope { n_tok, n_head, .. } => {
                assert(n_tok * n_head <= 128 * 64) by (nonlinear_arith)
                    requires
                        n_tok <= 128,
                        n_head <= 64,
                ;
                Some(Engine::cfg1d(n_tok as usize * n_head as usize * ROT_PAIRS, 256))
            },
            Step::StoreRaw { n_tok, .. } => Some(Engine::cfg1d(n_tok as usize * N_HEAD_DIM, 256)),
            Step::PrefillRaw { n_tok, .. } => Some(blocks_of(n_tok, N_HEAD as u32, 128, 0)),
            Step::DecodeMixed { .. } => Some(blocks_of(1, N_HEAD as u32, 256, 0)),
            Step::IndexScore { n_comp, .. } => Some(blocks_of(n_comp, 1, 128, 0)),
            Step::IndexTopk { n_sort, .. } => Some(blocks_of(1, 1, 256, n_sort * 8)),
            Step::IndexedMixed { .. } => Some(blocks_of(1, N_HEAD as u32, 256, 0)),
            Step::CompressorStore { head_dim, ratio, .. } => {
                let coff: usize = if ratio == 4 {
                    2
                } else {
                    1
                };
                Some(Engine::cfg1d(coff * head_dim as usize, 256))
            },
            Step::CompressorPool { head_dim, .. } => Some(Engine::cfg1d(head_dim as usize, 256)),
            Step::CompressorShift4 { width, .. } => Some(Engine::cfg1d(4 * width as usize, 256)),
            Step::Fp8Quantize { .. } => Some(blocks_of(1, 1, 64, 0)),
            Step::CopyAt { n, .. } => Some(Engine::cfg1d(n, 256)),
            Step::Swiglu { n, .. } => Some(Engine::cfg1d(n, 256)),
            Step::RouterSelect { .. } => Some(blocks_of(1, 1, 256, 0)),
            Step::Q8kQuantize { blocks, rows, .. } => Some(blocks_of(blocks, rows, 256, 0)),
            Step::MoeGateUpMid { .. } => Some(
                blocks_of((N_FF_EXP as u32 + 127) / 128, N_EXPERT_USED as u32, 256, 0),
            ),
            Step::MoeDownSum { .. } => Some(blocks_of((N_EMBD as u32 + 31) / 32, 1, 256, 0)),
            Step::HcExpand { .. } => Some(Engine::cfg1d(HC_DIM, 256)),
            Step::OutputHcWeights { .. } => Some(Engine::cfg1d(N_HC, 256)),
            Step::HcWeightedSum { .. } => Some(Engine::cfg1d(N_EMBD, 256)),
            _ => None,
        }
    }
}

/// Blocks of 256 threads that cover `n` elements.
pub open spec fn grid1(n: int) -> LaunchConfig {
    launch(ceil_div(n, 256), 1, 256, 0)
}

/// Width of a row of compressor state.
pub open spec fn comp_width(ratio: u32, head_dim: int) -> int {
    if ratio == 4 {
        2 * head_dim
    } else {
        head_dim
    }
}

/// A launch of `gx * gy` blocks of `threads` threads in a row.
fn blocks_of(gx: u32, gy: u32, threads: u32, shared: u32) -> (r: LaunchConfig)
    ensures
        r == launch(gx as int, gy as int, threads as int, shared as int),
{
    LaunchConfig {
        grid_dim: (gx, gy, 1),
        block_dim: (threads, 1, 1),
        shared_mem_bytes: shared,
    }
}

} // verus!
