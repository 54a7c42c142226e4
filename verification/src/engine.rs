//! The loaded model: weight tensors by slot, and launch geometry of device kernels.
use vstd::prelude::*;
use vstd::string::StringExecFns;

use crate::gguf::{first_named, infos, string_or_empty, texts, GgufFile, KV_STRING, KV_U32};
use crate::model::{
    ceil_div, info, LayerSlot, LayerWeights, ModelSlot, ModelWeights, TensorMeta, Weight, N_EMBD,
    N_EXPERT, N_EXPERT_SHARED, N_EXPERT_USED, N_FF_EXP, N_HASH_LAYER, N_HC, N_HC_SINKHORN_ITER,
    N_HEAD, N_HEAD_DIM, N_HEAD_KV, N_INDEXER_HEAD, N_INDEXER_HEAD_DIM, N_INDEXER_TOP_K, N_LAYER,
    N_LORA_O, N_LORA_Q, N_OUT_GROUP, N_ROT, N_SWA, N_VALUE_DIM, N_VOCAB,
};
use crate::text::{decimal, push_decimal};
use crate::tokenizer::{kv_number, kv_texts, KEY_TOKENS};

verus! {

/// Grid, block and shared memory of a kernel launch.
#[derive(Debug, Clone, Copy, PartialEq, Eq)]
pub struct LaunchConfig {
    pub grid_dim: (u32, u32, u32),
    pub block_dim: (u32, u32, u32),
    pub shared_mem_bytes: u32,
}

/// A loaded model.
pub struct Engine<'a> {
    pub gguf: GgufFile<'a>,
    pub weights: ModelWeights,
}

/// A number of the fixed architecture that a file can state.
#[derive(Debug, Clone, Copy, PartialEq, Eq, Structural)]
pub enum Constant {
    /// The number of layers.
    Layers,
    /// The embedding width.
    Width,
    /// The size of the vocabulary.
    Vocabulary,
    /// The number of query heads.
    Heads,
    /// The number of key and value heads.
    KvHeads,
    /// The width of a key.
    KeyWidth,
    /// The width of a value.
    ValueWidth,
    /// The rotated part of a key.
    Rotated,
    /// The number of groups of the output projection.
    OutputGroups,
    /// The rank of the query projection.
    QueryRank,
    /// The rank of the output projection.
    OutputRank,
    /// The number of routed experts.
    Experts,
    /// The number of experts that a token uses.
    ExpertsUsed,
    /// The number of shared experts.
    ExpertsShared,
    /// The width of an expert.
    ExpertWidth,
    /// The number of layers that route by token.
    HashLayers,
    /// The length of the sliding window.
    Window,
    /// The number of heads of the indexer.
    IndexerHeads,
    /// The width of a key of the indexer.
    IndexerKeyWidth,
    /// The number of rows that the indexer selects.
    IndexerTopK,
    /// The number of residual streams.
    Streams,
    /// The number of normalisation rounds of the stream mixing.
    SinkhornIterations,
}

impl Constant {
    /// What the number is in the fixed architecture.
    pub open spec fn fixed(self) -> int {
        match self {
            Constant::Layers => N_LAYER as int,
            Constant::Width => N_EMBD as int,
            Constant::Vocabulary => N_VOCAB as int,
            Constant::Heads => N_HEAD as int,
            Constant::KvHeads => N_HEAD_KV as int,
            Constant::KeyWidth => N_HEAD_DIM as int,
            Constant::ValueWidth => N_VALUE_DIM as int,
            Constant::Rotated => N_ROT as int,
            Constant::OutputGroups => N_OUT_GROUP as int,
            Constant::QueryRank => N_LORA_Q as int,
            Constant::OutputRank => N_LORA_O as int,
            Constant::Experts => N_EXPERT as int,
            Constant::ExpertsUsed => N_EXPERT_USED as int,
            Constant::ExpertsShared => N_EXPERT_SHARED as int,
            Constant::ExpertWidth => N_FF_EXP as int,
            Constant::HashLayers => N_HASH_LAYER as int,
            Constant::Window => N_SWA as int,
            Constant::IndexerHeads => N_INDEXER_HEAD as int,
            Constant::IndexerKeyWidth => N_INDEXER_HEAD_DIM as int,
            Constant::IndexerTopK => N_INDEXER_TOP_K as int,
            Constant::Streams => N_HC as int,
            Constant::SinkhornIterations => N_HC_SINKHORN_ITER as int,
        }
    }

    /// What follows the name of the architecture in the number's key.
    pub open spec fn suffix(self) -> Seq<char> {
        match self {
            Constant::Layers => ".block_count"@,
            Constant::Width => ".embedding_length"@,
            Constant::Vocabulary => ".vocab_size"@,
            Constant::Heads => ".attention.head_count"@,
            Constant::KvHeads => ".attention.head_count_kv"@,
            Constant::KeyWidth => ".attention.key_length"@,
            Constant::ValueWidth => ".attention.value_length"@,
            Constant::Rotated => ".rope.dimension_count"@,
            Constant::OutputGroups => ".attention.output_group_count"@,
            Constant::QueryRank => ".attention.q_lora_rank"@,
            Constant::OutputRank => ".attention.output_lora_rank"@,
            Constant::Experts => ".expert_count"@,
            Constant::ExpertsUsed => ".expert_used_count"@,
            Constant::ExpertsShared => ".expert_shared_count"@,
            Constant::ExpertWidth => ".expert_feed_forward_length"@,
            Constant::HashLayers => ".hash_layer_count"@,
            Constant::Window => ".attention.sliding_window"@,
            Constant::IndexerHeads => ".attention.indexer.head_count"@,
            Constant::IndexerKeyWidth => ".attention.indexer.key_length"@,
            Constant::IndexerTopK => ".attention.indexer.top_k"@,
            Constant::Streams => ".hyper_connection.count"@,
            Constant::SinkhornIterations => ".hyper_connection.sinkhorn_iterations"@,
        }
    }

    /// Gives what the number is in the fixed architecture.
    pub fn number(self) -> (r: usize)
        ensures
            r == self.fixed(),
    {
        match self {
            Constant::Layers => N_LAYER,
            Constant::Width => N_EMBD,
            Constant::Vocabulary => N_VOCAB,
            Constant::Heads => N_HEAD,
            Constant::KvHeads => N_HEAD_KV,
            Constant::KeyWidth => N_HEAD_DIM,
            Constant::ValueWidth => N_VALUE_DIM,
            Constant::Rotated => N_ROT,
            Constant::OutputGroups => N_OUT_GROUP,
            Constant::QueryRank => N_LORA_Q,
            Constant::OutputRank => N_LORA_O,
            Constant::Experts => N_EXPERT,
            Constant::ExpertsUsed => N_EXPERT_USED,
            Constant::ExpertsShared => N_EXPERT_SHARED,
            Constant::ExpertWidth => N_FF_EXP,
            Constant::HashLayers => N_HASH_LAYER,
            Constant::Window => N_SWA,
            Constant::IndexerHeads => N_INDEXER_HEAD,
            Constant::IndexerKeyWidth => N_INDEXER_HEAD_DIM,
            Constant::IndexerTopK => N_INDEXER_TOP_K,
            Constant::Streams => N_HC,
            Constant::SinkhornIterations => N_HC_SINKHORN_ITER,
        }
    }

    /// Gives what follows the name of the architecture in the number's key.
    pub fn key_suffix(self) -> (r: &'static str)
        ensures
            r@ == self.suffix(),
    {
        match self {
            Constant::Layers => ".block_count",
            Constant::Width => ".embedding_length",
            Constant::Vocabulary => ".vocab_size",
            Constant::Heads => ".attention.head_count",
            Constant::KvHeads => ".attention.head_count_kv",
            Constant::KeyWidth => ".attention.key_length",
            Constant::ValueWidth => ".attention.value_length",
            Constant::Rotated => ".rope.dimension_count",
            Constant::OutputGroups => ".attention.output_group_count",
            Constant::QueryRank => ".attention.q_lora_rank",
            Constant::OutputRank => ".attention.output_lora_rank",
            Constant::Experts => ".expert_count",
            Constant::ExpertsUsed => ".expert_used_count",
            Constant::ExpertsShared => ".expert_shared_count",
            Constant::ExpertWidth => ".expert_feed_forward_length",
            Constant::HashLayers => ".hash_layer_count",
            Constant::Window => ".attention.sliding_window",
            Constant::IndexerHeads => ".attention.indexer.head_count",
            Constant::IndexerKeyWidth => ".attention.indexer.key_length",
            Constant::IndexerTopK => ".attention.indexer.top_k",
            Constant::Streams => ".hyper_connection.count",
            Constant::SinkhornIterations => ".hyper_connection.sinkhorn_iterations",
        }
    }
}

/// All numbers that a file can state, in the order in which they are checked.
pub open spec fn constants() -> Seq<Constant> {
    seq![
        Constant::Layers,
        Constant::Width,
        Constant::Vocabulary,
        Constant::Heads,
        Constant::KvHeads,
        Constant::KeyWidth,
        Constant::ValueWidth,
        Constant::Rotated,
        Constant::OutputGroups,
        Constant::QueryRank,
        Constant::OutputRank,
        Constant::Experts,
        Constant::ExpertsUsed,
        Constant::ExpertsShared,
        Constant::ExpertWidth,
        Constant::HashLayers,
        Constant::Window,
        Constant::IndexerHeads,
        Constant::IndexerKeyWidth,
        Constant::IndexerTopK,
        Constant::Streams,
        Constant::SinkhornIterations,
    ]
}

/// Lists the numbers that a file can state, in the order in which they are checked.
fn all_constants() -> (r: Vec<Constant>)
    ensures
        r@ == constants(),
{
    let r: Vec<Constant> = vec![
        Constant::Layers,
        Constant::Width,
        Constant::Vocabulary,
        Constant::Heads,
        Constant::KvHeads,
        Constant::KeyWidth,
        Constant::ValueWidth,
        Constant::Rotated,
        Constant::OutputGroups,
        Constant::QueryRank,
        Constant::OutputRank,
        Constant::Experts,
        Constant::ExpertsUsed,
        Constant::ExpertsShared,
        Constant::ExpertWidth,
        Constant::HashLayers,
        Constant::Window,
        Constant::IndexerHeads,
        Constant::IndexerKeyWidth,
        Constant::IndexerTopK,
        Constant::Streams,
        Constant::SinkhornIterations,
    ];
    assert(r@ =~= constants());
    r
}

/// No number is left out: every one is checked.
pub proof fn every_constant_is_checked(c: Constant)
    ensures
        constants().contains(c),
{
    let i: int = match c {
        Constant::Layers => 0,
        Constant::Width => 1,
        Constant::Vocabulary => 2,
        Constant::Heads => 3,
        Constant::KvHeads => 4,
        Constant::KeyWidth => 5,
        Constant::ValueWidth => 6,
        Constant::Rotated => 7,
        Constant::OutputGroups => 8,
        Constant::QueryRank => 9,
        Constant::OutputRank => 10,
        Constant::Experts => 11,
        Constant::ExpertsUsed => 12,
        Constant::ExpertsShared => 13,
        Constant::ExpertWidth => 14,
        Constant::HashLayers => 15,
        Constant::Window => 16,
        Constant::IndexerHeads => 17,
        Constant::IndexerKeyWidth => 18,
        Constant::IndexerTopK => 19,
        Constant::Streams => 20,
        Constant::SinkhornIterations => 21,
    };
    assert(constants()[i] == c);
}

/// What a file states of its model that differs from the fixed architecture: a number, or the
/// number of entries that its vocabulary lists.
#[derive(Debug, Clone, Copy, PartialEq, Eq, Structural)]
pub enum ArchitectureError {
    Number(Constant, u32),
    VocabularyList(usize),
}

/// The key under which a file names its architecture; other keys begin with that name.
pub const KEY_ARCHITECTURE: &'static str = "general.architecture";

/// The number under the key that the name of the architecture and `suffix` make. A file that is
/// cut off within the name or within the number does not state it.
pub open spec fn stated_number(f: GgufFile, suffix: Seq<char>) -> Option<u32> {
    match f.value_of(KEY_ARCHITECTURE@, KV_STRING) {
        Some(p) => {
            let key = string_or_empty(f.data@, p) + suffix;
            if f.value_readable(KEY_ARCHITECTURE@, KV_STRING) && f.value_readable(key, KV_U32) {
                kv_number(f, key)
            } else {
                None
            }
        },
        None => None,
    }
}

/// The number of entries that the vocabulary of a file lists; none where the list is cut off.
pub open spec fn stated_entries(f: GgufFile) -> nat {
    if f.array_readable(KEY_TOKENS@, KV_STRING) {
        kv_texts(f, KEY_TOKENS@).len()
    } else {
        0
    }
}

/// The first of the numbers that a file states otherwise than the fixed architecture has it.
pub open spec fn number_fault(f: GgufFile, cs: Seq<Constant>) -> Option<ArchitectureError>
    decreases cs.len(),
{
    if cs.len() == 0 {
        None
    } else {
        let stated = stated_number(f, cs[0].suffix());
        if stated is Some && stated->0 != cs[0].fixed() {
            Some(ArchitectureError::Number(cs[0], stated->0))
        } else {
            number_fault(f, cs.drop_first())
        }
    }
}

/// The first thing a file states that differs from the fixed architecture: one of the numbers, or
/// the length of the list of its vocabulary. What a file does not state does not differ.
pub open spec fn architecture_fault(f: GgufFile) -> Option<ArchitectureError> {
    match number_fault(f, constants()) {
        Some(e) => Some(e),
        None => if stated_entries(f) != 0 && stated_entries(f) != N_VOCAB {
            Some(ArchitectureError::VocabularyList(stated_entries(f) as usize))
        } else {
            None
        },
    }
}

/// Where no fault is found, every number that a file states is that of the fixed architecture.
pub proof fn accepted_files_state_the_architecture(f: GgufFile, c: Constant)
    requires
        architecture_fault(f) is None,
    ensures
        stated_number(f, c.suffix()) matches Some(n) ==> n == c.fixed(),
{
    every_constant_is_checked(c);
    let i = choose|i: int| 0 <= i < constants().len() && constants()[i] == c;
    no_fault_before(f, constants(), i);
}

proof fn no_fault_before(f: GgufFile, cs: Seq<Constant>, i: int)
    requires
        number_fault(f, cs) is None,
        0 <= i < cs.len(),
    ensures
        stated_number(f, cs[i].suffix()) matches Some(n) ==> n == cs[i].fixed(),
    decreases cs.len(),
{
    if i > 0 {
        assert(cs.drop_first()[i - 1] == cs[i]);
        no_fault_before(f, cs.drop_first(), i - 1);
    }
}

/// Reads the number under the key that the name of the architecture and `suffix` make.
fn read_stated(gguf: &GgufFile, suffix: &str) -> (r: Option<u32>)
    requires
        gguf.wf(),
    ensures
        r == stated_number(*gguf, suffix@),
{
    if !gguf.can_read_value(KEY_ARCHITECTURE, KV_STRING) {
        return None;
    }
    match gguf.read_kv_string(KEY_ARCHITECTURE) {
        Some(name) => {
            let mut key: String = name;
            key.append(suffix);
            if gguf.can_read_value(key.as_str(), KV_U32) {
                gguf.read_kv_u32(key.as_str())
            } else {
                None
            }
        },
        None => None,
    }
}

/// Holds what the metadata of a file states against the fixed architecture. The numbers are those
/// under the keys `<name>.block_count`, `<name>.embedding_length` and so on, where
/// `general.architecture` gives the name; the vocabulary is `tokenizer.ggml.tokens`.
pub fn check_architecture(gguf: &GgufFile) -> (r: Result<(), ArchitectureError>)
    requires
        gguf.wf(),
    ensures
        match architecture_fault(*gguf) {
            Some(e) => r == Err::<(), ArchitectureError>(e),
            None => r is Ok,
        },
{
    let all: Vec<Constant> = all_constants();
    let mut i: usize = 0;
    assert(all@.skip(0) =~= all@);
    while i < all.len()
        invariant
            i <= all.len(),
            all@ == constants(),
            gguf.wf(),
            number_fault(*gguf, constants()) == number_fault(*gguf, all@.skip(i as int)),
        decreases all.len() - i,
    {
        let c: Constant = all[i];
        assert(all@.skip(i as int)[0] == c);
        assert(all@.skip(i as int).drop_first() =~= all@.skip(i + 1));
        if let Some(n) = read_stated(gguf, c.key_suffix()) {
            if n as usize != c.number() {
                return Err(ArchitectureError::Number(c, n));
            }
        }
        i = i + 1;
    }
    if gguf.can_read_array(KEY_TOKENS, KV_STRING) {
        let entries: Vec<String> = gguf.read_kv_string_array(KEY_TOKENS);
        assert(texts(entries@).len() == entries@.len());
        if entries.len() != 0 && entries.len() != N_VOCAB {
            return Err(ArchitectureError::VocabularyList(entries.len()));
        }
    }
    Ok(())
}

/// A launch of `gx * gy` blocks of `threads` threads in a row.
pub open spec fn launch(gx: int, gy: int, threads: int, shared: int) -> LaunchConfig {
    LaunchConfig {
        grid_dim: (gx as u32, gy as u32, 1),
        block_dim: (threads as u32, 1, 1),
        shared_mem_bytes: shared as u32,
    }
}

impl<'a> Engine<'a> {
    /// Checks the architecture that a parsed file states, and binds its tensors to their slots.
    pub fn new(gguf: GgufFile<'a>) -> (r: Result<Self, ArchitectureError>)
        requires
            gguf.wf(),
        ensures
            match architecture_fault(gguf) {
                Some(e) => r == Err::<Self, ArchitectureError>(e),
                None => r matches Ok(engine) && engine.gguf == gguf && binds(
                    infos(gguf.tensors@),
                    engine.weights,
                ),
            },
    {
        match check_architecture(&gguf) {
            Ok(()) => {
                let weights: ModelWeights = bind_weights(&gguf);
                Ok(Engine { gguf, weights })
            },
            Err(e) => Err(e),
        }
    }

    /// A one-dimensional grid that covers `n` elements with `block` threads per block.
    pub fn cfg1d(n: usize, block: u32) -> (r: LaunchConfig)
        requires
            block > 0,
            (n as u32) + block - 1 <= u32::MAX,
        ensures
            r == launch(ceil_div((n as u32) as int, block as int), 1, block as int, 0),
    {
        let grid: u32 = ((n as u32) + (block - 1)) / block;
        LaunchConfig { grid_dim: (grid, 1, 1), block_dim: (block, 1, 1), shared_mem_bytes: 0 }
    }

    /// The grid of kernels in which each of the eight warps of a block takes one row: a block
    /// for every eight rows, for each token.
    pub fn cfg_warp8(out_dim: usize, n_tok: usize) -> (r: LaunchConfig)
        requires
            (out_dim as u32) + 7 <= u32::MAX,
        ensures
            r == launch(ceil_div((out_dim as u32) as int, 8), (n_tok as u32) as int, 256, 0),
    {
        LaunchConfig {
            grid_dim: ((out_dim as u32 + 7) / 8, n_tok as u32, 1),
            block_dim: (256, 1, 1),
            shared_mem_bytes: 0,
        }
    }

    /// A two-dimensional grid that covers `x * y` elements with blocks of `bx * by` threads.
    pub fn cfg2d(x: u32, y: u32, bx: u32, by: u32) -> (r: LaunchConfig)
        requires
            bx > 0,
            by > 0,
            x + bx - 1 <= u32::MAX,
            y + by - 1 <= u32::MAX,
        ensures
            r.grid_dim.0 == ceil_div(x as int, bx as int),
            r.grid_dim.1 == ceil_div(y as int, by as int),
            r.grid_dim.2 == 1,
            r.block_dim == (bx, by, 1u32),
            r.shared_mem_bytes == 0,
    {
        LaunchConfig {
            grid_dim: ((x + (bx - 1)) / bx, (y + (by - 1)) / by, 1),
            block_dim: (bx, by, 1),
            shared_mem_bytes: 0,
        }
    }
}

/// Rounding up: `ceil_div(n, d)` groups of `d` hold `n` elements, and one group fewer does not.
pub proof fn grid_covers_exactly(n: int, d: int)
    requires
        n >= 0,
        d > 0,
    ensures
        ceil_div(n, d) * d >= n,
        n > 0 ==> (ceil_div(n, d) - 1) * d < n,
        ceil_div(n, d) <= n,
        ceil_div(n, d) >= 0,
{
    let m = n + d - 1;
    let q = m / d;
    vstd::arithmetic::div_mod::lemma_fundamental_div_mod(m, d);
    assert(q * d == d * q) by (nonlinear_arith);
    assert((q - 1) * d == q * d - d) by (nonlinear_arith);
    assert(q >= 0) by (nonlinear_arith)
        requires
            m >= 0,
            d > 0,
            m == d * q + m % d,
            0 <= m % d < d,
    ;
    assert(q <= n) by (nonlinear_arith)
        requires
            d * q <= n + d - 1,
            d > 0,
            n >= 0,
            q >= 0,
    ;
}

/// The name of a tensor outside the layers.
pub open spec fn model_name(s: ModelSlot) -> Seq<char> {
    match s {
        ModelSlot::TokenEmbd => "token_embd.weight"@,
        ModelSlot::OutputNorm => "output_norm.weight"@,
        ModelSlot::Output => "output.weight"@,
        ModelSlot::OutputHcFn => "output_hc_fn.weight"@,
        ModelSlot::OutputHcScale => "output_hc_scale.weight"@,
        ModelSlot::OutputHcBase => "output_hc_base.weight"@,
    }
}

/// The last part of the name of a layer's tensor. No file has the expert bias.
pub open spec fn layer_suffix(s: LayerSlot) -> Option<Seq<char>> {
    match s {
        LayerSlot::AttnNorm => Some("attn_norm.weight"@),
        LayerSlot::AttnQA => Some("attn_q_a.weight"@),
        LayerSlot::AttnQANorm => Some("attn_q_a_norm.weight"@),
        LayerSlot::AttnQB => Some("attn_q_b.weight"@),
        LayerSlot::AttnKv => Some("attn_kv.weight"@),
        LayerSlot::AttnKvANorm => Some("attn_kv_a_norm.weight"@),
        LayerSlot::AttnSinks => Some("attn_sinks.weight"@),
        LayerSlot::AttnOutputA => Some("attn_output_a.weight"@),
        LayerSlot::AttnOutputB => Some("attn_output_b.weight"@),
        LayerSlot::AttnCompressorApe => Some("attn_compressor_ape.weight"@),
        LayerSlot::AttnCompressorKv => Some("attn_compressor_kv.weight"@),
        LayerSlot::AttnCompressorGate => Some("attn_compressor_gate.weight"@),
        LayerSlot::AttnCompressorNorm => Some("attn_compressor_norm.weight"@),
        LayerSlot::HcAttnFn => Some("hc_attn_fn.weight"@),
        LayerSlot::HcAttnScale => Some("hc_attn_scale.weight"@),
        LayerSlot::HcAttnBase => Some("hc_attn_base.weight"@),
        LayerSlot::IndexerAttnQB => Some("indexer.attn_q_b.weight"@),
        LayerSlot::IndexerProj => Some("indexer.proj.weight"@),
        LayerSlot::IndexerCompressorApe => Some("indexer_compressor_ape.weight"@),
        LayerSlot::IndexerCompressorKv => Some("indexer_compressor_kv.weight"@),
        LayerSlot::IndexerCompressorGate => Some("indexer_compressor_gate.weight"@),
        LayerSlot::IndexerCompressorNorm => Some("indexer_compressor_norm.weight"@),
        LayerSlot::FfnNorm => Some("ffn_norm.weight"@),
        LayerSlot::FfnGateTid2eid => Some("ffn_gate_tid2eid.weight"@),
        LayerSlot::FfnGateInp => Some("ffn_gate_inp.weight"@),
        LayerSlot::FfnGateExps => Some("ffn_gate_exps.weight"@),
        LayerSlot::FfnUpExps => Some("ffn_up_exps.weight"@),
        LayerSlot::FfnDownExps => Some("ffn_down_exps.weight"@),
        LayerSlot::FfnGateShexp => Some("ffn_gate_shexp.weight"@),
        LayerSlot::FfnUpShexp => Some("ffn_up_shexp.weight"@),
        LayerSlot::FfnDownShexp => Some("ffn_down_shexp.weight"@),
        LayerSlot::HcFfnFn => Some("hc_ffn_fn.weight"@),
        LayerSlot::HcFfnScale => Some("hc_ffn_scale.weight"@),
        LayerSlot::HcFfnBase => Some("hc_ffn_base.weight"@),
        LayerSlot::FfnExpProbsB => None,
    }
}

/// The name of a layer's tensor: `blk`, the layer and the last part, with dots between.
pub open spec fn layer_name(il: nat, suffix: Seq<char>) -> Seq<char> {
    "blk."@ + decimal(il) + seq!['.'] + suffix
}

/// The tensor that belongs in a layer's slot.
pub open spec fn layer_tensor(
    tensors: Seq<crate::model::TensorInfo>,
    il: nat,
    s: LayerSlot,
) -> Option<crate::model::TensorInfo> {
    match layer_suffix(s) {
        Some(suffix) => first_named(tensors, layer_name(il, suffix)),
        None => None,
    }
}

/// Every slot holds the first tensor of the list with the slot's name.
pub open spec fn binds(tensors: Seq<crate::model::TensorInfo>, w: ModelWeights) -> bool {
    &&& w.wf()
    &&& forall|s: ModelSlot| info(#[trigger] w.slot(s)) == first_named(tensors, model_name(s))
    &&& forall|il: int|
        0 <= il < N_LAYER ==> layer_binds(tensors, il as nat, #[trigger] w.layers@[il])
}

/// Every slot of a layer holds the first tensor of the list with the slot's name.
pub open spec fn layer_binds(
    tensors: Seq<crate::model::TensorInfo>,
    il: nat,
    l: LayerWeights,
) -> bool {
    forall|s: LayerSlot| info(#[trigger] l.slot(s)) == layer_tensor(tensors, il, s)
}

/// A copy of the tensor with the given name.
fn get(gguf: &GgufFile, name: &str) -> (r: Option<TensorMeta>)
    ensures
        info(r) == first_named(infos(gguf.tensors@), name@),
{
    match gguf.find(name) {
        Some(t) => Some(t.clone()),
        None => None,
    }
}

/// A copy of a layer's tensor with the given last part of the name.
fn get_layer(gguf: &GgufFile, il: usize, suffix: &str) -> (r: Option<TensorMeta>)
    ensures
        info(r) == first_named(infos(gguf.tensors@), layer_name(il as nat, suffix@)),
{
    let mut name: String = String::from_str("blk.");
    push_decimal(&mut name, il as u64);
    name.push('.');
    name.append(suffix);
    assert(name@ =~= layer_name(il as nat, suffix@));
    get(gguf, name.as_str())
}

/// Binds the tensors of one layer.
fn bind_layer(gguf: &GgufFile, il: usize) -> (l: LayerWeights)
    ensures
        layer_binds(infos(gguf.tensors@), il as nat, l),
{
    LayerWeights {
        hc_attn_fn: get_layer(gguf, il, "hc_attn_fn.weight"),
        hc_attn_scale: get_layer(gguf, il, "hc_attn_scale.weight"),
        hc_attn_base: get_layer(gguf, il, "hc_attn_base.weight"),
        attn_norm: get_layer(gguf, il, "attn_norm.weight"),
        attn_q_a: get_layer(gguf, il, "attn_q_a.weight"),
        attn_q_a_norm: get_layer(gguf, il, "attn_q_a_norm.weight"),
        attn_q_b: get_layer(gguf, il, "attn_q_b.weight"),
        attn_kv: get_layer(gguf, il, "attn_kv.weight"),
        attn_kv_a_norm: get_layer(gguf, il, "attn_kv_a_norm.weight"),
        attn_sinks: get_layer(gguf, il, "attn_sinks.weight"),
        attn_output_a: get_layer(gguf, il, "attn_output_a.weight"),
        attn_output_b: get_layer(gguf, il, "attn_output_b.weight"),
        attn_compressor_ape: get_layer(gguf, il, "attn_compressor_ape.weight"),
        attn_compressor_kv: get_layer(gguf, il, "attn_compressor_kv.weight"),
        attn_compressor_gate: get_layer(gguf, il, "attn_compressor_gate.weight"),
        attn_compressor_norm: get_layer(gguf, il, "attn_compressor_norm.weight"),
        indexer_attn_q_b: get_layer(gguf, il, "indexer.attn_q_b.weight"),
        indexer_proj: get_layer(gguf, il, "indexer.proj.weight"),
        indexer_compressor_ape: get_layer(gguf, il, "indexer_compressor_ape.weight"),
        indexer_compressor_kv: get_layer(gguf, il, "indexer_compressor_kv.weight"),
        indexer_compressor_gate: get_layer(gguf, il, "indexer_compressor_gate.weight"),
        indexer_compressor_norm: get_layer(gguf, il, "indexer_compressor_norm.weight"),
        hc_ffn_fn: get_layer(gguf, il, "hc_ffn_fn.weight"),
        hc_ffn_scale: get_layer(gguf, il, "hc_ffn_scale.weight"),
        hc_ffn_base: get_layer(gguf, il, "hc_ffn_base.weight"),
        ffn_norm: get_layer(gguf, il, "ffn_norm.weight"),
        ffn_gate_tid2eid: get_layer(gguf, il, "ffn_gate_tid2eid.weight"),
        ffn_gate_inp: get_layer(gguf, il, "ffn_gate_inp.weight"),
        ffn_exp_probs_b: None,
        ffn_gate_exps: get_layer(gguf, il, "ffn_gate_exps.weight"),
        ffn_up_exps: get_layer(gguf, il, "ffn_up_exps.weight"),
        ffn_down_exps: get_layer(gguf, il, "ffn_down_exps.weight"),
        ffn_gate_shexp: get_layer(gguf, il, "ffn_gate_shexp.weight"),
        ffn_up_shexp: get_layer(gguf, il, "ffn_up_shexp.weight"),
        ffn_down_shexp: get_layer(gguf, il, "ffn_down_shexp.weight"),
    }
}

/// Matches tensor names to weight slots. A slot for which the file has no tensor stays empty.
pub fn bind_weights(gguf: &GgufFile) -> (w: ModelWeights)
    ensures
        binds(infos(gguf.tensors@), w),
{
    let mut layers: Vec<LayerWeights> = Vec::new();
    while layers.len() < N_LAYER
        invariant
            layers@.len() <= N_LAYER,
            forall|il: int|
                0 <= il < layers@.len() ==> layer_binds(
                    infos(gguf.tensors@),
                    il as nat,
                    #[trigger] layers@[il],
                ),
        decreases N_LAYER - layers@.len(),
    {
        let il: usize = layers.len();
        layers.push(bind_layer(gguf, il));
    }
    ModelWeights {
        token_embd: get(gguf, "token_embd.weight"),
        output_hc_base: get(gguf, "output_hc_base.weight"),
        output_hc_fn: get(gguf, "output_hc_fn.weight"),
        output_hc_scale: get(gguf, "output_hc_scale.weight"),
        output_norm: get(gguf, "output_norm.weight"),
        output: get(gguf, "output.weight"),
        layers,
    }
}

/// How a missing tensor is called in messages, without the layer.
pub open spec fn label(w: Weight) -> Seq<char> {
    match w {
        Weight::Model(s) => model_label(s),
        Weight::Layer(il, s) => layer_name(il as nat, layer_label(s)),
    }
}

/// How a tensor outside the layers is called in messages.
pub open spec fn model_label(s: ModelSlot) -> Seq<char> {
    match s {
        ModelSlot::TokenEmbd => "token_embd"@,
        ModelSlot::OutputNorm => "output_norm"@,
        ModelSlot::Output => "output.weight"@,
        ModelSlot::OutputHcFn => "output_hc_fn"@,
        ModelSlot::OutputHcScale => "output_hc_scale"@,
        ModelSlot::OutputHcBase => "output_hc_base"@,
    }
}

/// How a layer's tensor is called in messages.
pub open spec fn layer_label(s: LayerSlot) -> Seq<char> {
    match s {
        LayerSlot::AttnNorm => "attn_norm"@,
        LayerSlot::AttnQA => "attn_q_a"@,
        LayerSlot::AttnQANorm => "attn_q_a_norm"@,
        LayerSlot::AttnQB => "attn_q_b"@,
        LayerSlot::AttnKv => "attn_kv_a_mla"@,
        LayerSlot::AttnKvANorm => "attn_kv_a_norm"@,
        LayerSlot::AttnSinks => "attn_sinks"@,
        LayerSlot::AttnOutputA => "attn_output_a"@,
        LayerSlot::AttnOutputB => "attn_output_b"@,
        LayerSlot::AttnCompressorApe => "attn_compressor_ape"@,
        LayerSlot::AttnCompressorKv => "attn_compressor_kv"@,
        LayerSlot::AttnCompressorGate => "attn_compressor_gate"@,
        LayerSlot::AttnCompressorNorm => "attn_compressor_norm"@,
        LayerSlot::HcAttnFn => "hc_attn_fn"@,
        LayerSlot::HcAttnScale => "hc_attn_scale"@,
        LayerSlot::HcAttnBase => "hc_attn_base"@,
        LayerSlot::IndexerAttnQB => "indexer.attn_q_b"@,
        LayerSlot::IndexerProj => "indexer.proj"@,
        LayerSlot::IndexerCompressorApe => "indexer_compressor_ape"@,
        LayerSlot::IndexerCompressorKv => "indexer_compressor_kv"@,
        LayerSlot::IndexerCompressorGate => "indexer_compressor_gate"@,
        LayerSlot::IndexerCompressorNorm => "indexer_compressor_norm"@,
        LayerSlot::FfnNorm => "ffn_norm"@,
        LayerSlot::FfnGateTid2eid => "ffn_gate_tid2eid"@,
        LayerSlot::FfnGateInp => "ffn_gate_inp"@,
        LayerSlot::FfnGateExps => "ffn_gate_exps"@,
        LayerSlot::FfnUpExps => "ffn_up_exps"@,
        LayerSlot::FfnDownExps => "ffn_down_exps"@,
        LayerSlot::FfnGateShexp => "ffn_gate_shexp"@,
        LayerSlot::FfnUpShexp => "ffn_up_shexp"@,
        LayerSlot::FfnDownShexp => "ffn_down_shexp"@,
        LayerSlot::HcFfnFn => "hc_ffn_fn"@,
        LayerSlot::HcFfnScale => "hc_ffn_scale"@,
        LayerSlot::HcFfnBase => "hc_ffn_base"@,
        LayerSlot::FfnExpProbsB => "exp_probs_b"@,
    }
}

/// How a tensor is called in messages.
pub fn weight_label(w: Weight) -> (r: String)
    ensures
        r@ == label(w),
{
    match w {
        Weight::Model(s) => {
            let t: &str = match s {
                ModelSlot::TokenEmbd => "token_embd",
                ModelSlot::OutputNorm => "output_norm",
                ModelSlot::Output => "output.weight",
                ModelSlot::OutputHcFn => "output_hc_fn",
                ModelSlot::OutputHcScale => "output_hc_scale",
                ModelSlot::OutputHcBase => "output_hc_base",
            };
            String::from_str(t)
        },
        Weight::Layer(il, s) => {
            let t: &str = match s {
                LayerSlot::AttnNorm => "attn_norm",
                LayerSlot::AttnQA => "attn_q_a",
                LayerSlot::AttnQANorm => "attn_q_a_norm",
                LayerSlot::AttnQB => "attn_q_b",
                LayerSlot::AttnKv => "attn_kv_a_mla",
                LayerSlot::AttnKvANorm => "attn_kv_a_norm",
                LayerSlot::AttnSinks => "attn_sinks",
                LayerSlot::AttnOutputA => "attn_output_a",
                LayerSlot::AttnOutputB => "attn_output_b",
                LayerSlot::AttnCompressorApe => "attn_compressor_ape",
                LayerSlot::AttnCompressorKv => "attn_compressor_kv",
                LayerSlot::AttnCompressorGate => "attn_compressor_gate",
                LayerSlot::AttnCompressorNorm => "attn_compressor_norm",
                LayerSlot::HcAttnFn => "hc_attn_fn",
                LayerSlot::HcAttnScale => "hc_attn_scale",
                LayerSlot::HcAttnBase => "hc_attn_base",
                LayerSlot::IndexerAttnQB => "indexer.attn_q_b",
                LayerSlot::IndexerProj => "indexer.proj",
                LayerSlot::IndexerCompressorApe => "indexer_compressor_ape",
                LayerSlot::IndexerCompressorKv => "indexer_compressor_kv",
                LayerSlot::IndexerCompressorGate => "indexer_compressor_gate",
                LayerSlot::IndexerCompressorNorm => "indexer_compressor_norm",
                LayerSlot::FfnNorm => "ffn_norm",
                LayerSlot::FfnGateTid2eid => "ffn_gate_tid2eid",
                LayerSlot::FfnGateInp => "ffn_gate_inp",
                LayerSlot::FfnGateExps => "ffn_gate_exps",
                LayerSlot::FfnUpExps => "ffn_up_exps",
                LayerSlot::FfnDownExps => "ffn_down_exps",
                LayerSlot::FfnGateShexp => "ffn_gate_shexp",
                LayerSlot::FfnUpShexp => "ffn_up_shexp",
                LayerSlot::FfnDownShexp => "ffn_down_shexp",
                LayerSlot::HcFfnFn => "hc_ffn_fn",
                LayerSlot::HcFfnScale => "hc_ffn_scale",
                LayerSlot::HcFfnBase => "hc_ffn_base",
                LayerSlot::FfnExpProbsB => "exp_probs_b",
            };
            let mut name: String = String::from_str("blk.");
            push_decimal(&mut name, il as u64);
            name.push('.');
            name.append(t);
            assert(name@ =~= layer_name(il as nat, layer_label(s)));
            name
        },
    }
}

} // verus!
