//! The forward pass, as expressions over the kernels.
//!
//! What a token computes is written here from its inputs on, without regard to the buffers and the
//! order of the steps that compute it. A kernel is a function from rows to rows, of which nothing
//! else is known.
use vstd::prelude::*;

use crate::model::{LayerSlot, ModelSlot, ModelWeights, Weight};
use crate::pow2::next_pow2;
use crate::session::layer::has_indexer;
use crate::session::meaning::Memory;
use crate::session::state::holds;
use crate::session::step::{ratio_of, Buf, Operand, Step};

verus! {

/// Normalisation without weights.
pub open spec fn plain_norm<V>(k: spec_fn(Step, int, Seq<V>) -> V, n: u32, x: V) -> V {
    let b = Buf::NoTokens;
    k(Step::RmsNormPlain { x: b, out: b, n, rows: 1 }, 0, seq![x])
}

/// Normalisation with a weight for each element.
pub open spec fn norm<V>(k: spec_fn(Step, int, Seq<V>) -> V, w: Weight, n: u32, x: V) -> V {
    let b = Buf::NoTokens;
    k(Step::RmsNormWeight { x: b, w, out: b, n, rows: 1 }, 0, seq![x])
}

/// A projection with 16-bit weights.
pub open spec fn project16<V>(
    k: spec_fn(Step, int, Seq<V>) -> V,
    w: Weight,
    in_dim: u64,
    out_dim: u64,
    x: V,
) -> V {
    let b = Buf::NoTokens;
    k(Step::MatmulF16 { w, x: b, out: b, in_dim, out_dim, n_tok: 1 }, 0, seq![x])
}

/// `rows` rows of `in_dim` elements, quantized in blocks of 32: the values and the scales.
pub open spec fn q8<V>(
    k: spec_fn(Step, int, Seq<V>) -> V,
    in_dim: u64,
    rows: u32,
    x: V,
) -> Seq<V> {
    let b = Buf::NoTokens;
    let s = Step::QuantizeQ8 { x: b, xq: b, xscale: b, in_dim, blocks: in_dim / 32, rows };
    seq![k(s, 0, seq![x]), k(s, 1, seq![x])]
}

/// A projection with 8-bit weights, of the quantized row.
pub open spec fn project8<V>(
    k: spec_fn(Step, int, Seq<V>) -> V,
    w: Weight,
    in_dim: u64,
    out_dim: u64,
    x: V,
) -> V {
    let b = Buf::NoTokens;
    k(
        Step::MatmulQ8 { w, xq: b, xscale: b, out: b, in_dim, out_dim, blocks: in_dim / 32 },
        0,
        q8(k, in_dim, 1, x),
    )
}

/// The logits, from the residual streams after the last layer: the streams are summed by weights
/// that follow from their norm; the sum is normalised and projected.
pub open spec fn logits_of<V>(k: spec_fn(Step, int, Seq<V>) -> V, hc: V) -> V {
    let b = Buf::NoTokens;
    let w = |s: ModelSlot| Weight::Model(s);
    let mix = project16(k, w(ModelSlot::OutputHcFn), 16384, 4, plain_norm(k, 16384, hc));
    let weights = k(
        Step::OutputHcWeights {
            pre: b,
            scale: w(ModelSlot::OutputHcScale),
            base: w(ModelSlot::OutputHcBase),
            out: b,
        },
        0,
        seq![mix],
    );
    let sum = k(Step::HcWeightedSum { x: b, weights: b, out: b }, 0, seq![hc, weights]);
    project8(
        k,
        w(ModelSlot::Output),
        4096,
        129280,
        norm(k, w(ModelSlot::OutputNorm), 4096, sum),
    )
}

/// Rotation by a position, forward or back.
pub open spec fn turn<V>(
    k: spec_fn(Step, int, Seq<V>) -> V,
    il: usize,
    n_head: u32,
    head_dim: u32,
    pos: int,
    n_ctx_orig: u32,
    inverse: bool,
    x: V,
) -> V {
    k(
        Step::Rope {
            x: Buf::NoTokens,
            n_tok: 1,
            n_head,
            head_dim,
            pos: pos as u32,
            n_ctx_orig,
            inverse,
            layer: il,
        },
        0,
        seq![x],
    )
}

/// The tensors that make the input of a block.
pub struct InputSlots {
    pub mix: LayerSlot,
    pub scale: LayerSlot,
    pub base: LayerSlot,
    pub norm: LayerSlot,
}

/// Those of the attention block.
pub open spec fn attention_slots() -> InputSlots {
    InputSlots {
        mix: LayerSlot::HcAttnFn,
        scale: LayerSlot::HcAttnScale,
        base: LayerSlot::HcAttnBase,
        norm: LayerSlot::AttnNorm,
    }
}

/// Those of the feed-forward block.
pub open spec fn feed_forward_slots() -> InputSlots {
    InputSlots {
        mix: LayerSlot::HcFfnFn,
        scale: LayerSlot::HcFfnScale,
        base: LayerSlot::HcFfnBase,
        norm: LayerSlot::FfnNorm,
    }
}

/// What a block makes of the residual streams first: the mixing coefficients, the mixed row, and
/// the row normalised.
pub open spec fn block_input<V>(
    k: spec_fn(Step, int, Seq<V>) -> V,
    il: usize,
    s: InputSlots,
    hc: V,
) -> Seq<V> {
    let b = Buf::NoTokens;
    let mix = project16(k, Weight::Layer(il, s.mix), 16384, 24, plain_norm(k, 16384, hc));
    let step = Step::HcSplitNorm {
        mix: b,
        scale: Weight::Layer(il, s.scale),
        base: Weight::Layer(il, s.base),
        residual: b,
        norm: Weight::Layer(il, s.norm),
        split: b,
        cur: b,
        normed: b,
        rows: 1,
    };
    seq![k(step, 0, seq![mix, hc]), k(step, 1, seq![mix, hc]), k(step, 2, seq![mix, hc])]
}

/// The normalised low-rank query and the normalised key, of a normalised row.
pub open spec fn low_rank<V>(k: spec_fn(Step, int, Seq<V>) -> V, il: usize, x: V) -> Seq<V> {
    let b = Buf::NoTokens;
    let step = Step::QkvNorm {
        qr: b,
        qr_w: Weight::Layer(il, LayerSlot::AttnQANorm),
        qr_out: b,
        kv: b,
        kv_w: Weight::Layer(il, LayerSlot::AttnKvANorm),
        kv_out: b,
        rows: 1,
    };
    let both = seq![
        project8(k, Weight::Layer(il, LayerSlot::AttnQA), 4096, 1024, x),
        project8(k, Weight::Layer(il, LayerSlot::AttnKv), 4096, 512, x),
    ];
    seq![k(step, 0, both), k(step, 1, both)]
}

/// The query of a token: 64 heads, normalised by themselves and rotated by its position.
pub open spec fn query<V>(
    k: spec_fn(Step, int, Seq<V>) -> V,
    il: usize,
    pos: int,
    x: V,
) -> V {
    let wide = project8(
        k,
        Weight::Layer(il, LayerSlot::AttnQB),
        1024,
        32768,
        low_rank(k, il, x)[0],
    );
    let heads = k(
        Step::HeadNorm { x: Buf::NoTokens, n_tok: 1, n_head: 64, head_dim: 512 },
        0,
        seq![wide],
    );
    turn(k, il, 64, 512, pos, 65536, false, heads)
}

/// The key of a token: one head, rotated by its position.
pub open spec fn key<V>(k: spec_fn(Step, int, Seq<V>) -> V, il: usize, pos: int, x: V) -> V {
    turn(k, il, 1, 512, pos, 65536, false, low_rank(k, il, x)[1])
}

/// The window with the key of one more token.
pub open spec fn window_with<V>(
    k: spec_fn(Step, int, Seq<V>) -> V,
    pos: int,
    window: V,
    key: V,
) -> V {
    let b = Buf::NoTokens;
    k(
        Step::StoreRaw { kv: b, cache: b, raw_cap: 128, pos: pos as u32, n_tok: 1 },
        0,
        seq![window, key],
    )
}

/// The indexer's query of a token, and the weights of its heads.
pub open spec fn index_query<V>(
    k: spec_fn(Step, int, Seq<V>) -> V,
    il: usize,
    pos: int,
    cur: V,
    x: V,
) -> Seq<V> {
    let q = project16(
        k,
        Weight::Layer(il, LayerSlot::IndexerAttnQB),
        1024,
        8192,
        low_rank(k, il, x)[0],
    );
    seq![
        turn(k, il, 64, 128, pos, 65536, false, q),
        project16(k, Weight::Layer(il, LayerSlot::IndexerProj), 4096, 64, cur),
    ]
}

/// The tensors of a compressor, and the width of the rows that it makes.
pub struct CompressorSlots {
    pub kv: LayerSlot,
    pub gate: LayerSlot,
    pub ape: LayerSlot,
    pub norm: LayerSlot,
    pub dim: u32,
}

/// The compressor of attention rows.
pub open spec fn attention_rows() -> CompressorSlots {
    CompressorSlots {
        kv: LayerSlot::AttnCompressorKv,
        gate: LayerSlot::AttnCompressorGate,
        ape: LayerSlot::AttnCompressorApe,
        norm: LayerSlot::AttnCompressorNorm,
        dim: 512,
    }
}

/// The compressor of the rows that the indexer scores.
pub open spec fn index_rows() -> CompressorSlots {
    CompressorSlots {
        kv: LayerSlot::IndexerCompressorKv,
        gate: LayerSlot::IndexerCompressorGate,
        ape: LayerSlot::IndexerCompressorApe,
        norm: LayerSlot::IndexerCompressorNorm,
        dim: 128,
    }
}

/// What a compressor holds: its cache of rows, and the keys and scores of the window that is not
/// complete.
pub struct Compressed<V> {
    pub cache: V,
    pub keys: V,
    pub scores: V,
}

/// Elements of a state row: rows overlap where they cover four tokens, and have two halves then.
pub open spec fn state_width(il: usize, c: CompressorSlots) -> int {
    if ratio_of(il as int) == 4 {
        2 * c.dim
    } else {
        c.dim as int
    }
}

/// The state with the projections of one more token, of a normalised row.
pub open spec fn state_with<V>(
    k: spec_fn(Step, int, Seq<V>) -> V,
    il: usize,
    c: CompressorSlots,
    pos: int,
    x: V,
    s: Compressed<V>,
) -> Compressed<V> {
    let b = Buf::NoTokens;
    let wide = state_width(il, c) as u64;
    let step = Step::CompressorStore {
        kv: b,
        sc: b,
        state_kv: b,
        state_score: b,
        ape: Weight::Layer(il, c.ape),
        head_dim: c.dim,
        ratio: ratio_of(il as int),
        pos: pos as u32,
    };
    let read = seq![
        project16(k, Weight::Layer(il, c.kv), 4096, wide, x),
        project16(k, Weight::Layer(il, c.gate), 4096, wide, x),
        s.keys,
        s.scores,
    ];
    Compressed { keys: k(step, 0, read), scores: k(step, 1, read), ..s }
}

/// The row of a whole window: the state pooled, normalised, rotated by the position of the first
/// token of the window that holds `pos`, and rounded.
pub open spec fn window_row<V>(
    k: spec_fn(Step, int, Seq<V>) -> V,
    il: usize,
    c: CompressorSlots,
    pos: int,
    s: Compressed<V>,
) -> V {
    let b = Buf::NoTokens;
    let ratio = ratio_of(il as int);
    let pooled = k(
        Step::CompressorPool { state_kv: b, state_score: b, out: b, head_dim: c.dim, ratio },
        0,
        seq![s.keys, s.scores],
    );
    let row = norm(k, Weight::Layer(il, c.norm), c.dim, pooled);
    let turned = turn(k, il, 1, c.dim, pos - pos % ratio as int, 65536, false, row);
    k(Step::Fp8Quantize { x: b, head_dim: c.dim }, 0, seq![turned])
}

/// The compressor after the row of a whole window went to place `at` of the cache. Where rows
/// overlap, the state moves on by a window.
pub open spec fn with_window_row<V>(
    k: spec_fn(Step, int, Seq<V>) -> V,
    il: usize,
    c: CompressorSlots,
    pos: int,
    at: int,
    s: Compressed<V>,
) -> Compressed<V> {
    let b = Buf::NoTokens;
    let put = Step::CopyAt { src: b, dst: b, n: c.dim as usize, offset: (at * c.dim) as u32 };
    let shift = Step::CompressorShift4 {
        state_kv: b,
        state_score: b,
        width: state_width(il, c) as u32,
    };
    let moves = ratio_of(il as int) == 4;
    Compressed {
        cache: k(put, 0, seq![window_row(k, il, c, pos, s), s.cache]),
        keys: if moves {
            k(shift, 0, seq![s.keys, s.scores])
        } else {
            s.keys
        },
        scores: if moves {
            k(shift, 1, seq![s.keys, s.scores])
        } else {
            s.scores
        },
    }
}

/// A compressor after one more token, where its cache holds `row` rows and has room for `cap`.
pub open spec fn compressed_with<V>(
    k: spec_fn(Step, int, Seq<V>) -> V,
    il: usize,
    c: CompressorSlots,
    pos: int,
    row: u32,
    cap: int,
    x: V,
    s: Compressed<V>,
) -> Compressed<V> {
    let stored = state_with(k, il, c, pos, x, s);
    if (pos + 1) % ratio_of(il as int) as int == 0 && row < cap {
        with_window_row(k, il, c, pos, row as int, stored)
    } else {
        stored
    }
}

/// Rows of the window that a token at `pos` sees.
pub open spec fn window_len(pos: int) -> int {
    if pos < 127 {
        pos + 1
    } else {
        128
    }
}

/// Where the oldest of them stands.
pub open spec fn window_start(pos: int) -> int {
    if pos < 128 {
        0
    } else {
        (pos - 127) % 128
    }
}

/// Attention of a token over its window and compressed rows: over all of them, or over the 512
/// that the indexer scores best where it has more to choose from.
pub open spec fn attention<V>(
    k: spec_fn(Step, int, Seq<V>) -> V,
    w: ModelWeights,
    il: usize,
    pos: int,
    n_comp: u32,
    q: V,
    iq: Seq<V>,
    window: V,
    rows: V,
    index: V,
) -> V {
    let b = Buf::NoTokens;
    let sinks = Weight::Layer(il, LayerSlot::AttnSinks);
    if has_indexer(w, il as int) && n_comp > 512 {
        let scores = k(
            Step::IndexScore {
                q: b,
                weights: b,
                comp: b,
                scores: b,
                n_comp,
                pos: pos as u32,
                ratio: 4,
                causal: true,
            },
            0,
            seq![iq[0], iq[1], index],
        );
        let best = k(
            Step::IndexTopk {
                scores: b,
                topk: b,
                n_comp,
                top_k: 512,
                n_sort: next_pow2(n_comp as int) as u32,
            },
            0,
            seq![scores],
        );
        k(
            Step::IndexedMixed {
                q: b,
                raw: b,
                comp: b,
                topk: b,
                sinks,
                heads: b,
                pos: pos as u32,
                n_raw: window_len(pos) as u32,
                raw_cap: 128,
                raw_start: window_start(pos) as u32,
                n_comp,
                top_k: 512,
                window: 128,
                ratio: 4,
            },
            0,
            seq![q, window, rows, best],
        )
    } else {
        k(
            Step::DecodeMixed {
                q: b,
                raw: b,
                comp: b,
                sinks,
                heads: b,
                pos: pos as u32,
                n_raw: window_len(pos) as u32,
                raw_cap: 128,
                raw_start: window_start(pos) as u32,
                n_comp,
                window: 128,
                ratio: ratio_of(il as int),
            },
            0,
            seq![q, window, rows],
        )
    }
}

/// The residual streams after attention: the heads are turned back, projected down in eight groups
/// and up again, and mixed into the streams that attention started from.
pub open spec fn attention_output<V>(
    k: spec_fn(Step, int, Seq<V>) -> V,
    il: usize,
    pos: int,
    hc: V,
    split: V,
    heads: V,
) -> V {
    let b = Buf::NoTokens;
    let ctx = if ratio_of(il as int) == 0 {
        0
    } else {
        65536u32
    };
    let low = k(
        Step::MatmulQ8Grouped {
            w: Weight::Layer(il, LayerSlot::AttnOutputA),
            xq: b,
            xscale: b,
            out: b,
            group_dim: 4096,
            rank: 1024,
            n_groups: 8,
            blocks: 128,
        },
        0,
        q8(k, 4096, 8, turn(k, il, 64, 512, pos, ctx, true, heads)),
    );
    k(
        Step::MatmulQ8HcExpand {
            w: Weight::Layer(il, LayerSlot::AttnOutputB),
            xq: b,
            xscale: b,
            residual: b,
            split: b,
            out: b,
            add: b,
            out_hc: b,
            in_dim: 8192,
            out_dim: 4096,
            blocks: 256,
            has_add: false,
        },
        1,
        q8(k, 8192, 1, low) + seq![hc, split],
    )
}

/// The shared expert: gate and up, their product, and down.
pub open spec fn shared_expert<V>(k: spec_fn(Step, int, Seq<V>) -> V, il: usize, x: V) -> V {
    let b = Buf::NoTokens;
    let gate = project8(k, Weight::Layer(il, LayerSlot::FfnGateShexp), 4096, 2048, x);
    let up = project8(k, Weight::Layer(il, LayerSlot::FfnUpShexp), 4096, 2048, x);
    let mid = k(Step::Swiglu { gate: b, up: b, out: b, n: 2048 }, 0, seq![gate, up]);
    project8(k, Weight::Layer(il, LayerSlot::FfnDownShexp), 2048, 4096, mid)
}

/// Which experts a token goes to (result 1), and with which weights (result 2).
pub open spec fn chosen<V>(
    k: spec_fn(Step, int, Seq<V>) -> V,
    w: ModelWeights,
    il: usize,
    token: i32,
    x: V,
    number: int,
) -> V {
    let b = Buf::NoTokens;
    let table = |s: LayerSlot|
        if holds(w, il as int, s) {
            Operand::Tensor(Weight::Layer(il, s))
        } else {
            Operand::Buffer(b)
        };
    k(
        Step::RouterSelect {
            logits: b,
            bias: table(LayerSlot::FfnExpProbsB),
            hash: table(LayerSlot::FfnGateTid2eid),
            probs: b,
            selected: b,
            weights: b,
            token,
            has_bias: holds(w, il as int, LayerSlot::FfnExpProbsB),
        },
        number,
        seq![project16(k, Weight::Layer(il, LayerSlot::FfnGateInp), 4096, 256, x)],
    )
}

/// The chosen experts: gate, up and product of each, then down, and the sum of all.
pub open spec fn routed_experts<V>(
    k: spec_fn(Step, int, Seq<V>) -> V,
    w: ModelWeights,
    il: usize,
    token: i32,
    x: V,
) -> V {
    let b = Buf::NoTokens;
    let q = |in_dim: u32, rows: u32, v: V|
        k(
            Step::Q8kQuantize { x: b, out: b, in_dim, blocks: in_dim / 256, rows },
            0,
            seq![v],
        );
    let experts = chosen(k, w, il, token, x, 1);
    let mid = k(
        Step::MoeGateUpMid {
            w_gate: Weight::Layer(il, LayerSlot::FfnGateExps),
            w_up: Weight::Layer(il, LayerSlot::FfnUpExps),
            xq: b,
            selected: b,
            weights: b,
            gate: b,
            up: b,
            mid: b,
            expert_bytes: (2048int * 16 * 66) as u64,
            row_bytes: (16int * 66) as u64,
        },
        2,
        seq![q(4096, 1, x), experts, chosen(k, w, il, token, x, 2)],
    );
    k(
        Step::MoeDownSum {
            w_down: Weight::Layer(il, LayerSlot::FfnDownExps),
            midq: b,
            selected: b,
            out: b,
            expert_bytes: (4096int * 8 * 84) as u64,
            row_bytes: (8int * 84) as u64,
        },
        0,
        seq![q(2048, 6, mid), experts],
    )
}

/// The residual streams after the feed-forward block: the shared expert and, where the layer has a
/// router, the chosen ones, mixed into the streams.
pub open spec fn feed_forward<V>(
    k: spec_fn(Step, int, Seq<V>) -> V,
    w: ModelWeights,
    il: usize,
    token: i32,
    hc: V,
) -> V {
    let b = Buf::NoTokens;
    let input = block_input(k, il, feed_forward_slots(), hc);
    let routes = holds(w, il as int, LayerSlot::FfnGateInp);
    let shared = seq![shared_expert(k, il, input[2]), hc, input[0]];
    k(
        Step::HcExpand { block: b, add: b, residual: b, split: b, out: b, has_add: routes },
        0,
        if routes {
            shared.push(routed_experts(k, w, il, token, input[2]))
        } else {
            shared
        },
    )
}

/// What a layer keeps for later tokens.
pub struct LayerState<V> {
    pub window: V,
    pub rows: Compressed<V>,
    pub index: Compressed<V>,
}

/// What a layer keeps after a token, of the residual streams that the token enters it with.
pub open spec fn state_after<V>(
    k: spec_fn(Step, int, Seq<V>) -> V,
    w: ModelWeights,
    il: usize,
    pos: int,
    row: u32,
    cap: int,
    hc: V,
    s: LayerState<V>,
) -> LayerState<V> {
    let x = block_input(k, il, attention_slots(), hc)[2];
    let ratio = ratio_of(il as int);
    LayerState {
        window: window_with(k, pos, s.window, key(k, il, pos, x)),
        rows: if ratio != 0 && holds(w, il as int, LayerSlot::AttnCompressorKv) {
            compressed_with(k, il, attention_rows(), pos, row, cap, x, s.rows)
        } else {
            s.rows
        },
        index: if ratio == 4 && holds(w, il as int, LayerSlot::IndexerCompressorKv) {
            compressed_with(k, il, index_rows(), pos, row, cap, x, s.index)
        } else {
            s.index
        },
    }
}

/// Compressed rows that a token attends to, its own window's included if it completes it.
pub open spec fn rows_seen(w: ModelWeights, il: usize, pos: int, row: u32, cap: int) -> u32 {
    let ratio = ratio_of(il as int);
    if ratio == 0 {
        0
    } else if holds(w, il as int, LayerSlot::AttnCompressorKv) && (pos + 1) % ratio as int == 0
        && row < cap {
        (row + 1) as u32
    } else {
        row
    }
}

/// The residual streams with which a token leaves a layer, where the layer keeps `s` after it.
pub open spec fn streams_after<V>(
    k: spec_fn(Step, int, Seq<V>) -> V,
    w: ModelWeights,
    il: usize,
    pos: int,
    token: i32,
    n_comp: u32,
    hc: V,
    s: LayerState<V>,
) -> V {
    let input = block_input(k, il, attention_slots(), hc);
    let heads = attention(
        k,
        w,
        il,
        pos,
        n_comp,
        query(k, il, pos, input[2]),
        index_query(k, il, pos, input[1], input[2]),
        s.window,
        s.rows.cache,
        s.index.cache,
    );
    feed_forward(k, w, il, token, attention_output(k, il, pos, hc, input[0], heads))
}

/// What a memory keeps for a layer.
pub open spec fn state_of<V>(m: Memory<V>, il: usize) -> LayerState<V> {
    LayerState {
        window: (m.at)(Buf::RawCache(il), 0),
        rows: Compressed {
            cache: (m.at)(Buf::AttnCompCache(il), 0),
            keys: (m.at)(Buf::AttnStateKv(il), 0),
            scores: (m.at)(Buf::AttnStateScore(il), 0),
        },
        index: Compressed {
            cache: (m.at)(Buf::IndexCompCache(il), 0),
            keys: (m.at)(Buf::IndexStateKv(il), 0),
            scores: (m.at)(Buf::IndexStateScore(il), 0),
        },
    }
}

/// The residual streams of a token: all of them are its embedding.
pub open spec fn embedding<V>(k: spec_fn(Step, int, Seq<V>) -> V, token: i32) -> V {
    k(
        Step::EmbedToken {
            w: Weight::Model(ModelSlot::TokenEmbd),
            out: Buf::NoTokens,
            token: token as u32,
        },
        0,
        Seq::empty(),
    )
}

/// The residual streams with which a token enters layer `l`.
pub open spec fn streams<V>(
    k: spec_fn(Step, int, Seq<V>) -> V,
    w: ModelWeights,
    pos: int,
    token: i32,
    rows: Seq<u32>,
    cap: int,
    m: Memory<V>,
    l: nat,
) -> V
    decreases l,
{
    if l == 0 {
        embedding(k, token)
    } else {
        let il = (l - 1) as usize;
        let row = rows[il as int];
        let hc = streams(k, w, pos, token, rows, cap, m, (l - 1) as nat);
        streams_after(
            k,
            w,
            il,
            pos,
            token,
            rows_seen(w, il, pos, row, cap),
            hc,
            state_after(k, w, il, pos, row, cap, hc, state_of(m, il)),
        )
    }
}

} // verus!
