//! Architecture constants, tensor types and the table of weight tensors.
//!
//! The architecture constants are held against the metadata of a file when it is loaded.
use vstd::prelude::*;

verus! {

pub const N_LAYER: usize = 43;

pub const N_EMBD: usize = 4096;

pub const N_VOCAB: usize = 129280;

pub const N_HEAD: usize = 64;

pub const N_HEAD_KV: usize = 1;

pub const N_HEAD_DIM: usize = 512;

pub const N_VALUE_DIM: usize = 512;

pub const N_ROT: usize = 64;

/// Head dimensions that rotary embedding leaves alone: `N_HEAD_DIM - N_ROT`.
pub const N_NOPE: usize = 448;

/// Groups of attention heads in the low-rank output projection.
pub const N_OUT_GROUP: usize = 8;

pub const N_LORA_Q: usize = 1024;

pub const N_LORA_O: usize = 1024;

pub const N_EXPERT: usize = 256;

pub const N_EXPERT_USED: usize = 6;

pub const N_EXPERT_SHARED: usize = 1;

pub const N_FF_EXP: usize = 2048;

/// Leading layers that use the sliding window; the last of them keeps compressed rows besides it.
pub const N_HASH_LAYER: usize = 3;

/// Rows of the sliding attention window.
pub const N_SWA: usize = 128;

pub const N_INDEXER_HEAD: usize = 64;

pub const N_INDEXER_HEAD_DIM: usize = 128;

pub const N_INDEXER_TOP_K: usize = 512;

/// Hierarchical-compression heads of the residual stream.
pub const N_HC: usize = 4;

pub const N_HC_SINKHORN_ITER: usize = 20;

/// Elements of a quantization super-block.
pub const QK_K: usize = 256;

/// `n` divided by `d`, rounded up.
pub open spec fn ceil_div(n: int, d: int) -> int {
    (n + d - 1) / d
}

/// The tensor types that the engine can read.
#[allow(non_camel_case_types)]
#[derive(Debug, Clone, Copy, PartialEq, Eq, Structural)]
pub enum TensorType {
    F32,
    F16,
    Q8_0,
    Q2K,
    Q4K,
    Iq2Xxs,
    I32,
}

impl TensorType {
    /// The number by which a weight file names this type.
    pub open spec fn id(self) -> u32 {
        match self {
            TensorType::F32 => 0,
            TensorType::F16 => 1,
            TensorType::Q8_0 => 8,
            TensorType::Q2K => 10,
            TensorType::Q4K => 12,
            TensorType::Iq2Xxs => 16,
            TensorType::I32 => 26,
        }
    }

    /// Bytes of one block.
    pub open spec fn spec_block_bytes(self) -> usize {
        match self {
            TensorType::F32 => 4,
            TensorType::F16 => 2,
            TensorType::Q8_0 => 34,
            TensorType::Q2K => 84,
            TensorType::Q4K => 144,
            TensorType::Iq2Xxs => 66,
            TensorType::I32 => 4,
        }
    }

    /// Elements of one block.
    pub open spec fn spec_elems_per_block(self) -> usize {
        match self {
            TensorType::Q8_0 => 32,
            TensorType::Q2K => QK_K,
            TensorType::Q4K => QK_K,
            TensorType::Iq2Xxs => QK_K,
            _ => 1,
        }
    }

    /// Bytes of `n_elems` elements: whole blocks, the last one padded.
    pub open spec fn spec_byte_size(self, n_elems: int) -> int {
        ceil_div(n_elems, self.spec_elems_per_block() as int) * self.spec_block_bytes()
    }

    /// The type named by `v`; `None` for a number that names no readable type.
    pub fn from_u32(v: u32) -> (r: Option<Self>)
        ensures
            r matches Some(t) ==> t.id() == v,
            r is None ==> forall|t: TensorType| #[trigger] t.id() != v,
    {
        match v {
            0 => Some(Self::F32),
            1 => Some(Self::F16),
            8 => Some(Self::Q8_0),
            10 => Some(Self::Q2K),
            12 => Some(Self::Q4K),
            16 => Some(Self::Iq2Xxs),
            26 => Some(Self::I32),
            _ => None,
        }
    }

    /// The number by which a weight file names this type.
    pub fn to_u32(self) -> (r: u32)
        ensures
            r == self.id(),
    {
        match self {
            Self::F32 => 0,
            Self::F16 => 1,
            Self::Q8_0 => 8,
            Self::Q2K => 10,
            Self::Q4K => 12,
            Self::Iq2Xxs => 16,
            Self::I32 => 26,
        }
    }

    /// Bytes per element for scalar types, bytes per block for block quantizations.
    #[verifier::when_used_as_spec(spec_block_bytes)]
    pub fn block_bytes(self) -> (r: usize)
        ensures
            r == self.spec_block_bytes(),
    {
        match self {
            Self::F32 => 4,
            Self::F16 => 2,
            // a 16-bit scale and 32 signed bytes
            Self::Q8_0 => 34,
            // 16 scale bytes, 64 bytes of two-bit values, two 16-bit factors
            Self::Q2K => 84,
            // 12 scale bytes, 128 bytes of four-bit values, two 16-bit factors
            Self::Q4K => 144,
            // a 16-bit scale and 32 16-bit code words
            Self::Iq2Xxs => 66,
            Self::I32 => 4,
        }
    }

    /// Elements per block: 1 for scalar types.
    #[verifier::when_used_as_spec(spec_elems_per_block)]
    pub fn elems_per_block(self) -> (r: usize)
        ensures
            r == self.spec_elems_per_block(),
    {
        match self {
            Self::Q8_0 => 32,
            Self::Q2K => QK_K,
            Self::Q4K => QK_K,
            Self::Iq2Xxs => QK_K,
            _ => 1,
        }
    }

    /// Total bytes for `n_elems` elements of this type.
    pub fn byte_size(self, n_elems: usize) -> (r: usize)
        requires
            n_elems + self.spec_elems_per_block() - 1 <= usize::MAX,
            self.spec_byte_size(n_elems as int) <= usize::MAX,
        ensures
            r == self.spec_byte_size(n_elems as int),
    {
        let per: usize = self.elems_per_block();
        let blocks: usize = (n_elems + (per - 1)) / per;
        blocks * self.block_bytes()
    }
}

/// The type numbers are distinct: a number names at most one type.
pub proof fn type_ids_are_distinct(a: TensorType, b: TensorType)
    requires
        a.id() == b.id(),
    ensures
        a == b,
{
}

/// The bytes of a tensor hold all its elements, and fewer blocks would not.
pub proof fn byte_size_is_tight(t: TensorType, n_elems: int)
    requires
        n_elems >= 0,
    ensures
        ({
            let blocks = ceil_div(n_elems, t.spec_elems_per_block() as int);
            &&& t.spec_byte_size(n_elems) == blocks * t.spec_block_bytes()
            &&& blocks * t.spec_elems_per_block() >= n_elems
            &&& (blocks - 1) * t.spec_elems_per_block() < n_elems || blocks == 0
        }),
{
    let d = t.spec_elems_per_block() as int;
    let m = n_elems + d - 1;
    vstd::arithmetic::div_mod::lemma_fundamental_div_mod(m, d);
    assert((m / d) * d == d * (m / d)) by (nonlinear_arith);
    assert((m / d - 1) * d == (m / d) * d - d) by (nonlinear_arith);
}

/// The product of the dimensions.
pub open spec fn product(dims: Seq<u64>) -> int
    decreases dims.len(),
{
    if dims.len() == 0 {
        1
    } else {
        product(dims.drop_last()) * dims.last()
    }
}

/// Every partial product, taken from the first dimension on, is a 64-bit number.
pub open spec fn product_fits(dims: Seq<u64>) -> bool {
    forall|k: int| 0 <= k <= dims.len() ==> #[trigger] product(dims.take(k)) <= u64::MAX
}

/// A tensor as the file describes it.
pub struct TensorInfo {
    pub name: Seq<char>,
    pub ty: TensorType,
    pub dims: Seq<u64>,
    pub offset: u64,
}

/// Metadata for one tensor of the weight file.
#[derive(Debug)]
pub struct TensorMeta {
    pub name: String,
    pub ty: TensorType,
    pub dims: Vec<u64>,
    /// Byte offset from the start of the data section.
    pub offset: u64,
}

impl View for TensorMeta {
    type V = TensorInfo;

    open spec fn view(&self) -> TensorInfo {
        TensorInfo { name: self.name@, ty: self.ty, dims: self.dims@, offset: self.offset }
    }
}

impl Clone for TensorMeta {
    fn clone(&self) -> (r: Self)
        ensures
            r@ == self@,
    {
        let dims: Vec<u64> = self.dims.clone();
        assert(dims@ =~= self.dims@);
        TensorMeta { name: self.name.clone(), ty: self.ty, dims, offset: self.offset }
    }
}

impl TensorMeta {
    /// The byte size can be computed in machine integers.
    pub open spec fn size_fits(&self) -> bool {
        &&& product_fits(self.dims@)
        &&& product(self.dims@) + self.ty.spec_elems_per_block() - 1 <= usize::MAX
        &&& self.ty.spec_byte_size(product(self.dims@)) <= usize::MAX
    }

    /// Total number of elements.
    pub fn n_elems(&self) -> (r: u64)
        requires
            product_fits(self.dims@),
        ensures
            r == product(self.dims@),
    {
        let mut n: u64 = 1;
        let mut i: usize = 0;
        assert(product(self.dims@.take(0)) == 1);
        while i < self.dims.len()
            invariant
                i <= self.dims.len(),
                product_fits(self.dims@),
                n == product(self.dims@.take(i as int)),
            decreases self.dims.len() - i,
        {
            assert(self.dims@.take(i + 1).drop_last() =~= self.dims@.take(i as int));
            assert(product(self.dims@.take(i + 1)) <= u64::MAX);
            n = n * self.dims[i];
            i = i + 1;
        }
        assert(self.dims@.take(i as int) =~= self.dims@);
        n
    }

    /// Byte size of this tensor's data.
    pub fn byte_size(&self) -> (r: usize)
        requires
            self.size_fits(),
        ensures
            r == self.ty.spec_byte_size(product(self.dims@)),
    {
        let n: u64 = self.n_elems();
        self.ty.byte_size(n as usize)
    }
}

/// What an optional tensor describes.
pub open spec fn info(t: Option<TensorMeta>) -> Option<TensorInfo> {
    match t {
        Some(m) => Some(m@),
        None => None,
    }
}

/// All weight tensors of one transformer layer. A tensor that the file lacks is `None`.
#[derive(Debug)]
pub struct LayerWeights {
    // Hierarchical compression around attention
    pub hc_attn_fn: Option<TensorMeta>,
    pub hc_attn_scale: Option<TensorMeta>,
    pub hc_attn_base: Option<TensorMeta>,
    // Attention
    pub attn_norm: Option<TensorMeta>,
    pub attn_q_a: Option<TensorMeta>,
    pub attn_q_a_norm: Option<TensorMeta>,
    pub attn_q_b: Option<TensorMeta>,
    pub attn_kv: Option<TensorMeta>,
    pub attn_kv_a_norm: Option<TensorMeta>,
    pub attn_sinks: Option<TensorMeta>,
    pub attn_output_a: Option<TensorMeta>,
    pub attn_output_b: Option<TensorMeta>,
    // Attention compressor
    pub attn_compressor_ape: Option<TensorMeta>,
    pub attn_compressor_kv: Option<TensorMeta>,
    pub attn_compressor_gate: Option<TensorMeta>,
    pub attn_compressor_norm: Option<TensorMeta>,
    // Indexer
    pub indexer_attn_q_b: Option<TensorMeta>,
    pub indexer_proj: Option<TensorMeta>,
    pub indexer_compressor_ape: Option<TensorMeta>,
    pub indexer_compressor_kv: Option<TensorMeta>,
    pub indexer_compressor_gate: Option<TensorMeta>,
    pub indexer_compressor_norm: Option<TensorMeta>,
    // Hierarchical compression around the feed-forward block
    pub hc_ffn_fn: Option<TensorMeta>,
    pub hc_ffn_scale: Option<TensorMeta>,
    pub hc_ffn_base: Option<TensorMeta>,
    // Feed-forward block and experts
    pub ffn_norm: Option<TensorMeta>,
    pub ffn_gate_tid2eid: Option<TensorMeta>,
    pub ffn_gate_inp: Option<TensorMeta>,
    pub ffn_exp_probs_b: Option<TensorMeta>,
    pub ffn_gate_exps: Option<TensorMeta>,
    pub ffn_up_exps: Option<TensorMeta>,
    pub ffn_down_exps: Option<TensorMeta>,
    // Shared expert
    pub ffn_gate_shexp: Option<TensorMeta>,
    pub ffn_up_shexp: Option<TensorMeta>,
    pub ffn_down_shexp: Option<TensorMeta>,
}

/// The tensors of a layer, one variant for each field of `LayerWeights`.
#[derive(Debug, Clone, Copy, PartialEq, Eq, Structural)]
pub enum LayerSlot {
    HcAttnFn,
    HcAttnScale,
    HcAttnBase,
    AttnNorm,
    AttnQA,
    AttnQANorm,
    AttnQB,
    AttnKv,
    AttnKvANorm,
    AttnSinks,
    AttnOutputA,
    AttnOutputB,
    AttnCompressorApe,
    AttnCompressorKv,
    AttnCompressorGate,
    AttnCompressorNorm,
    IndexerAttnQB,
    IndexerProj,
    IndexerCompressorApe,
    IndexerCompressorKv,
    IndexerCompressorGate,
    IndexerCompressorNorm,
    HcFfnFn,
    HcFfnScale,
    HcFfnBase,
    FfnNorm,
    FfnGateTid2eid,
    FfnGateInp,
    FfnExpProbsB,
    FfnGateExps,
    FfnUpExps,
    FfnDownExps,
    FfnGateShexp,
    FfnUpShexp,
    FfnDownShexp,
}

impl LayerWeights {
    /// The tensor in the given slot.
    pub open spec fn slot(self, s: LayerSlot) -> Option<TensorMeta> {
        match s {
            LayerSlot::HcAttnFn => self.hc_attn_fn,
            LayerSlot::HcAttnScale => self.hc_attn_scale,
            LayerSlot::HcAttnBase => self.hc_attn_base,
            LayerSlot::AttnNorm => self.attn_norm,
            LayerSlot::AttnQA => self.attn_q_a,
            LayerSlot::AttnQANorm => self.attn_q_a_norm,
            LayerSlot::AttnQB => self.attn_q_b,
            LayerSlot::AttnKv => self.attn_kv,
            LayerSlot::AttnKvANorm => self.attn_kv_a_norm,
            LayerSlot::AttnSinks => self.attn_sinks,
            LayerSlot::AttnOutputA => self.attn_output_a,
            LayerSlot::AttnOutputB => self.attn_output_b,
            LayerSlot::AttnCompressorApe => self.attn_compressor_ape,
            LayerSlot::AttnCompressorKv => self.attn_compressor_kv,
            LayerSlot::AttnCompressorGate => self.attn_compressor_gate,
            LayerSlot::AttnCompressorNorm => self.attn_compressor_norm,
            LayerSlot::IndexerAttnQB => self.indexer_attn_q_b,
            LayerSlot::IndexerProj => self.indexer_proj,
            LayerSlot::IndexerCompressorApe => self.indexer_compressor_ape,
            LayerSlot::IndexerCompressorKv => self.indexer_compressor_kv,
            LayerSlot::IndexerCompressorGate => self.indexer_compressor_gate,
            LayerSlot::IndexerCompressorNorm => self.indexer_compressor_norm,
            LayerSlot::HcFfnFn => self.hc_ffn_fn,
            LayerSlot::HcFfnScale => self.hc_ffn_scale,
            LayerSlot::HcFfnBase => self.hc_ffn_base,
            LayerSlot::FfnNorm => self.ffn_norm,
            LayerSlot::FfnGateTid2eid => self.ffn_gate_tid2eid,
            LayerSlot::FfnGateInp => self.ffn_gate_inp,
            LayerSlot::FfnExpProbsB => self.ffn_exp_probs_b,
            LayerSlot::FfnGateExps => self.ffn_gate_exps,
            LayerSlot::FfnUpExps => self.ffn_up_exps,
            LayerSlot::FfnDownExps => self.ffn_down_exps,
            LayerSlot::FfnGateShexp => self.ffn_gate_shexp,
            LayerSlot::FfnUpShexp => self.ffn_up_shexp,
            LayerSlot::FfnDownShexp => self.ffn_down_shexp,
        }
    }

    /// The tensor in the given slot.
    pub fn get(&self, s: LayerSlot) -> (r: &Option<TensorMeta>)
        ensures
            *r == self.slot(s),
    {
        match s {
            LayerSlot::HcAttnFn => &self.hc_attn_fn,
            LayerSlot::HcAttnScale => &self.hc_attn_scale,
            LayerSlot::HcAttnBase => &self.hc_attn_base,
            LayerSlot::AttnNorm => &self.attn_norm,
            LayerSlot::AttnQA => &self.attn_q_a,
            LayerSlot::AttnQANorm => &self.attn_q_a_norm,
            LayerSlot::AttnQB => &self.attn_q_b,
            LayerSlot::AttnKv => &self.attn_kv,
            LayerSlot::AttnKvANorm => &self.attn_kv_a_norm,
            LayerSlot::AttnSinks => &self.attn_sinks,
            LayerSlot::AttnOutputA => &self.attn_output_a,
            LayerSlot::AttnOutputB => &self.attn_output_b,
            LayerSlot::AttnCompressorApe => &self.attn_compressor_ape,
            LayerSlot::AttnCompressorKv => &self.attn_compressor_kv,
            LayerSlot::AttnCompressorGate => &self.attn_compressor_gate,
            LayerSlot::AttnCompressorNorm => &self.attn_compressor_norm,
            LayerSlot::IndexerAttnQB => &self.indexer_attn_q_b,
            LayerSlot::IndexerProj => &self.indexer_proj,
            LayerSlot::IndexerCompressorApe => &self.indexer_compressor_ape,
            LayerSlot::IndexerCompressorKv => &self.indexer_compressor_kv,
            LayerSlot::IndexerCompressorGate => &self.indexer_compressor_gate,
            LayerSlot::IndexerCompressorNorm => &self.indexer_compressor_norm,
            LayerSlot::HcFfnFn => &self.hc_ffn_fn,
            LayerSlot::HcFfnScale => &self.hc_ffn_scale,
            LayerSlot::HcFfnBase => &self.hc_ffn_base,
            LayerSlot::FfnNorm => &self.ffn_norm,
            LayerSlot::FfnGateTid2eid => &self.ffn_gate_tid2eid,
            LayerSlot::FfnGateInp => &self.ffn_gate_inp,
            LayerSlot::FfnExpProbsB => &self.ffn_exp_probs_b,
            LayerSlot::FfnGateExps => &self.ffn_gate_exps,
            LayerSlot::FfnUpExps => &self.ffn_up_exps,
            LayerSlot::FfnDownExps => &self.ffn_down_exps,
            LayerSlot::FfnGateShexp => &self.ffn_gate_shexp,
            LayerSlot::FfnUpShexp => &self.ffn_up_shexp,
            LayerSlot::FfnDownShexp => &self.ffn_down_shexp,
        }
    }

    /// No slot holds a tensor.
    pub open spec fn is_empty(self) -> bool {
        forall|s: LayerSlot| #[trigger] self.slot(s) is None
    }
}

impl Default for LayerWeights {
    fn default() -> (r: Self)
        ensures
            r.is_empty(),
    {
        LayerWeights {
            hc_attn_fn: None,
            hc_attn_scale: None,
            hc_attn_base: None,
            attn_norm: None,
            attn_q_a: None,
            attn_q_a_norm: None,
            attn_q_b: None,
            attn_kv: None,
            attn_kv_a_norm: None,
            attn_sinks: None,
            attn_output_a: None,
            attn_output_b: None,
            attn_compressor_ape: None,
            attn_compressor_kv: None,
            attn_compressor_gate: None,
            attn_compressor_norm: None,
            indexer_attn_q_b: None,
            indexer_proj: None,
            indexer_compressor_ape: None,
            indexer_compressor_kv: None,
            indexer_compressor_gate: None,
            indexer_compressor_norm: None,
            hc_ffn_fn: None,
            hc_ffn_scale: None,
            hc_ffn_base: None,
            ffn_norm: None,
            ffn_gate_tid2eid: None,
            ffn_gate_inp: None,
            ffn_exp_probs_b: None,
            ffn_gate_exps: None,
            ffn_up_exps: None,
            ffn_down_exps: None,
            ffn_gate_shexp: None,
            ffn_up_shexp: None,
            ffn_down_shexp: None,
        }
    }
}

/// All weight tensors of the model.
#[derive(Debug)]
pub struct ModelWeights {
    pub token_embd: Option<TensorMeta>,
    pub output_hc_base: Option<TensorMeta>,
    pub output_hc_fn: Option<TensorMeta>,
    pub output_hc_scale: Option<TensorMeta>,
    pub output_norm: Option<TensorMeta>,
    pub output: Option<TensorMeta>,
    pub layers: Vec<LayerWeights>,
}

/// The tensors that belong to no layer.
#[derive(Debug, Clone, Copy, PartialEq, Eq, Structural)]
pub enum ModelSlot {
    TokenEmbd,
    OutputHcBase,
    OutputHcFn,
    OutputHcScale,
    OutputNorm,
    Output,
}

/// One weight tensor of the model.
#[derive(Debug, Clone, Copy, PartialEq, Eq, Structural)]
pub enum Weight {
    Model(ModelSlot),
    Layer(usize, LayerSlot),
}

impl ModelWeights {
    /// There is a table for every layer.
    pub open spec fn wf(self) -> bool {
        self.layers@.len() == N_LAYER
    }

    /// The tensor in the given slot outside the layers.
    pub open spec fn slot(self, s: ModelSlot) -> Option<TensorMeta> {
        match s {
            ModelSlot::TokenEmbd => self.token_embd,
            ModelSlot::OutputHcBase => self.output_hc_base,
            ModelSlot::OutputHcFn => self.output_hc_fn,
            ModelSlot::OutputHcScale => self.output_hc_scale,
            ModelSlot::OutputNorm => self.output_norm,
            ModelSlot::Output => self.output,
        }
    }

    /// The tensor `w`, if the file has it.
    pub open spec fn weight(self, w: Weight) -> Option<TensorMeta> {
        match w {
            Weight::Model(s) => self.slot(s),
            Weight::Layer(il, s) => self.layers@[il as int].slot(s),
        }
    }

    /// A table without tensors.
    pub fn new() -> (r: Self)
        ensures
            r.wf(),
            forall|s: ModelSlot| #[trigger] r.slot(s) is None,
            forall|il: int| 0 <= il < N_LAYER ==> (#[trigger] r.layers@[il]).is_empty(),
    {
        let mut layers: Vec<LayerWeights> = Vec::new();
        while layers.len() < N_LAYER
            invariant
                layers@.len() <= N_LAYER,
                forall|il: int| 0 <= il < layers@.len() ==> (#[trigger] layers@[il]).is_empty(),
            decreases N_LAYER - layers@.len(),
        {
            layers.push(LayerWeights::default());
        }
        ModelWeights {
            token_embd: None,
            output_hc_base: None,
            output_hc_fn: None,
            output_hc_scale: None,
            output_norm: None,
            output: None,
            layers,
        }
    }

    /// The tensor `w`, if the file has it.
    pub fn get(&self, w: Weight) -> (r: &Option<TensorMeta>)
        requires
            self.wf(),
            w matches Weight::Layer(il, _) ==> il < N_LAYER,
        ensures
            *r == self.weight(w),
    {
        match w {
            Weight::Model(s) => match s {
                ModelSlot::TokenEmbd => &self.token_embd,
                ModelSlot::OutputHcBase => &self.output_hc_base,
                ModelSlot::OutputHcFn => &self.output_hc_fn,
                ModelSlot::OutputHcScale => &self.output_hc_scale,
                ModelSlot::OutputNorm => &self.output_norm,
                ModelSlot::Output => &self.output,
            },
            Weight::Layer(il, s) => self.layers[il].get(s),
        }
    }
}

} // verus!
