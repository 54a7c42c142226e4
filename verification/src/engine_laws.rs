//! Which tensor of a file is bound to which slot.
use vstd::prelude::*;

use crate::engine::{
    binds, label, layer_binds, layer_label, layer_name, layer_suffix, layer_tensor, model_name,
};
use crate::gguf::first_named;
use crate::model::{
    info, LayerSlot, ModelSlot, ModelWeights, TensorInfo, TensorMeta, Weight, N_LAYER,
};
use crate::text::{decimal, digit};

verus! {

/// A slot holds the first tensor of the list with the given name, and nothing where there is none.
pub open spec fn holds_named(
    slot: Option<TensorMeta>,
    tensors: Seq<TensorInfo>,
    name: Seq<char>,
) -> bool {
    match slot {
        Some(t) => exists|i: int|
            {
                &&& 0 <= i < tensors.len()
                &&& #[trigger] tensors[i] == t@
                &&& t@.name == name
                &&& forall|j: int| 0 <= j < i ==> (#[trigger] tensors[j]).name != name
            },
        None => forall|i: int| 0 <= i < tensors.len() ==> (#[trigger] tensors[i]).name != name,
    }
}

/// The name of a tensor of layer `il`.
pub open spec fn blk(il: nat, last: Seq<char>) -> Seq<char> {
    "blk."@ + decimal(il) + seq!['.'] + last
}

/// The first tensor with a name is the one with the lowest index.
proof fn first_is_lowest(tensors: Seq<TensorInfo>, name: Seq<char>, slot: Option<TensorMeta>)
    requires
        info(slot) == first_named(tensors, name),
    ensures
        holds_named(slot, tensors, name),
    decreases tensors.len(),
{
    if tensors.len() > 0 {
        let rest = tensors.drop_first();
        if tensors[0].name == name {
            assert(tensors[0] == slot->0@);
        } else {
            first_is_lowest(rest, name, slot);
            match slot {
                Some(t) => {
                    let i = choose|i: int|
                        {
                            &&& 0 <= i < rest.len()
                            &&& #[trigger] rest[i] == t@
                            &&& t@.name == name
                            &&& forall|j: int| 0 <= j < i ==> (#[trigger] rest[j]).name != name
                        };
                    assert(tensors[i + 1] == t@);
                    assert forall|j: int| 0 <= j < i + 1 implies (#[trigger] tensors[j]).name
                        != name by {
                        if j > 0 {
                            assert(rest[j - 1] == tensors[j]);
                        }
                    }
                },
                None => {
                    assert forall|j: int| 0 <= j < tensors.len() implies (
                    #[trigger] tensors[j]).name != name by {
                        if j > 0 {
                            assert(rest[j - 1] == tensors[j]);
                        }
                    }
                },
            }
        }
    }
}

/// Every field of a layer holds the tensor of its own name.
pub proof fn fields_hold_the_tensors_of_their_names(
    tensors: Seq<TensorInfo>,
    w: ModelWeights,
    il: nat,
)
    requires
        binds(tensors, w),
        il < N_LAYER,
    ensures
        ({
            let l = w.layers@[il as int];
            &&& holds_named(l.hc_attn_fn, tensors, blk(il, "hc_attn_fn.weight"@))
            &&& holds_named(l.hc_attn_scale, tensors, blk(il, "hc_attn_scale.weight"@))
            &&& holds_named(l.hc_attn_base, tensors, blk(il, "hc_attn_base.weight"@))
            &&& holds_named(l.attn_norm, tensors, blk(il, "attn_norm.weight"@))
            &&& holds_named(l.attn_q_a, tensors, blk(il, "attn_q_a.weight"@))
            &&& holds_named(l.attn_q_a_norm, tensors, blk(il, "attn_q_a_norm.weight"@))
            &&& holds_named(l.attn_q_b, tensors, blk(il, "attn_q_b.weight"@))
            &&& holds_named(l.attn_kv, tensors, blk(il, "attn_kv.weight"@))
            &&& holds_named(l.attn_kv_a_norm, tensors, blk(il, "attn_kv_a_norm.weight"@))
            &&& holds_named(l.attn_sinks, tensors, blk(il, "attn_sinks.weight"@))
            &&& holds_named(l.attn_output_a, tensors, blk(il, "attn_output_a.weight"@))
            &&& holds_named(l.attn_output_b, tensors, blk(il, "attn_output_b.weight"@))
            &&& holds_named(l.attn_compressor_ape, tensors, blk(il, "attn_compressor_ape.weight"@))
            &&& holds_named(l.attn_compressor_kv, tensors, blk(il, "attn_compressor_kv.weight"@))
            &&& holds_named(
                l.attn_compressor_gate,
                tensors,
                blk(il, "attn_compressor_gate.weight"@),
            )
            &&& holds_named(
                l.attn_compressor_norm,
                tensors,
                blk(il, "attn_compressor_norm.weight"@),
            )
            &&& holds_named(l.indexer_attn_q_b, tensors, blk(il, "indexer.attn_q_b.weight"@))
            &&& holds_named(l.indexer_proj, tensors, blk(il, "indexer.proj.weight"@))
            &&& holds_named(
                l.indexer_compressor_ape,
                tensors,
                blk(il, "indexer_compressor_ape.weight"@),
            )
            &&& holds_named(
                l.indexer_compressor_kv,
                tensors,
                blk(il, "indexer_compressor_kv.weight"@),
            )
            &&& holds_named(
                l.indexer_compressor_gate,
                tensors,
                blk(il, "indexer_compressor_gate.weight"@),
            )
            &&& holds_named(
                l.indexer_compressor_norm,
                tensors,
                blk(il, "indexer_compressor_norm.weight"@),
            )
            &&& holds_named(l.hc_ffn_fn, tensors, blk(il, "hc_ffn_fn.weight"@))
            &&& holds_named(l.hc_ffn_scale, tensors, blk(il, "hc_ffn_scale.weight"@))
            &&& holds_named(l.hc_ffn_base, tensors, blk(il, "hc_ffn_base.weight"@))
            &&& holds_named(l.ffn_norm, tensors, blk(il, "ffn_norm.weight"@))
            &&& holds_named(l.ffn_gate_tid2eid, tensors, blk(il, "ffn_gate_tid2eid.weight"@))
            &&& holds_named(l.ffn_gate_inp, tensors, blk(il, "ffn_gate_inp.weight"@))
            &&& l.ffn_exp_probs_b is None
            &&& holds_named(l.ffn_gate_exps, tensors, blk(il, "ffn_gate_exps.weight"@))
            &&& holds_named(l.ffn_up_exps, tensors, blk(il, "ffn_up_exps.weight"@))
            &&& holds_named(l.ffn_down_exps, tensors, blk(il, "ffn_down_exps.weight"@))
            &&& holds_named(l.ffn_gate_shexp, tensors, blk(il, "ffn_gate_shexp.weight"@))
            &&& holds_named(l.ffn_up_shexp, tensors, blk(il, "ffn_up_shexp.weight"@))
            &&& holds_named(l.ffn_down_shexp, tensors, blk(il, "ffn_down_shexp.weight"@))
        }),
{
    let l = w.layers@[il as int];
    assert(layer_binds(tensors, il, l));
    assert(info(l.slot(LayerSlot::HcAttnFn)) == layer_tensor(tensors, il, LayerSlot::HcAttnFn));
    first_is_lowest(tensors, blk(il, "hc_attn_fn.weight"@), l.hc_attn_fn);
    assert(info(l.slot(LayerSlot::HcAttnScale)) == layer_tensor(
        tensors,
        il,
        LayerSlot::HcAttnScale,
    ));
    first_is_lowest(tensors, blk(il, "hc_attn_scale.weight"@), l.hc_attn_scale);
    assert(info(l.slot(LayerSlot::HcAttnBase)) == layer_tensor(tensors, il, LayerSlot::HcAttnBase));
    first_is_lowest(tensors, blk(il, "hc_attn_base.weight"@), l.hc_attn_base);
    assert(info(l.slot(LayerSlot::AttnNorm)) == layer_tensor(tensors, il, LayerSlot::AttnNorm));
    first_is_lowest(tensors, blk(il, "attn_norm.weight"@), l.attn_norm);
    assert(info(l.slot(LayerSlot::AttnQA)) == layer_tensor(tensors, il, LayerSlot::AttnQA));
    first_is_lowest(tensors, blk(il, "attn_q_a.weight"@), l.attn_q_a);
    assert(info(l.slot(LayerSlot::AttnQANorm)) == layer_tensor(tensors, il, LayerSlot::AttnQANorm));
    first_is_lowest(tensors, blk(il, "attn_q_a_norm.weight"@), l.attn_q_a_norm);
    assert(info(l.slot(LayerSlot::AttnQB)) == layer_tensor(tensors, il, LayerSlot::AttnQB));
    first_is_lowest(tensors, blk(il, "attn_q_b.weight"@), l.attn_q_b);
    assert(info(l.slot(LayerSlot::AttnKv)) == layer_tensor(tensors, il, LayerSlot::AttnKv));
    first_is_lowest(tensors, blk(il, "attn_kv.weight"@), l.attn_kv);
    assert(info(l.slot(LayerSlot::AttnKvANorm)) == layer_tensor(
        tensors,
        il,
        LayerSlot::AttnKvANorm,
    ));
    first_is_lowest(tensors, blk(il, "attn_kv_a_norm.weight"@), l.attn_kv_a_norm);
    assert(info(l.slot(LayerSlot::AttnSinks)) == layer_tensor(tensors, il, LayerSlot::AttnSinks));
    first_is_lowest(tensors, blk(il, "attn_sinks.weight"@), l.attn_sinks);
    assert(info(l.slot(LayerSlot::AttnOutputA)) == layer_tensor(
        tensors,
        il,
        LayerSlot::AttnOutputA,
    ));
    first_is_lowest(tensors, blk(il, "attn_output_a.weight"@), l.attn_output_a);
    assert(info(l.slot(LayerSlot::AttnOutputB)) == layer_tensor(
        tensors,
        il,
        LayerSlot::AttnOutputB,
    ));
    first_is_lowest(tensors, blk(il, "attn_output_b.weight"@), l.attn_output_b);
    assert(info(l.slot(LayerSlot::AttnCompressorApe)) == layer_tensor(
        tensors,
        il,
        LayerSlot::AttnCompressorApe,
    ));
    first_is_lowest(tensors, blk(il, "attn_compressor_ape.weight"@), l.attn_compressor_ape);
    assert(info(l.slot(LayerSlot::AttnCompressorKv)) == layer_tensor(
        tensors,
        il,
        LayerSlot::AttnCompressorKv,
    ));
    first_is_lowest(tensors, blk(il, "attn_compressor_kv.weight"@), l.attn_compressor_kv);
    assert(info(l.slot(LayerSlot::AttnCompressorGate)) == layer_tensor(
        tensors,
        il,
        LayerSlot::AttnCompressorGate,
    ));
    first_is_lowest(tensors, blk(il, "attn_compressor_gate.weight"@), l.attn_compressor_gate);
    assert(info(l.slot(LayerSlot::AttnCompressorNorm)) == layer_tensor(
        tensors,
        il,
        LayerSlot::AttnCompressorNorm,
    ));
    first_is_lowest(tensors, blk(il, "attn_compressor_norm.weight"@), l.attn_compressor_norm);
    assert(info(l.slot(LayerSlot::IndexerAttnQB)) == layer_tensor(
        tensors,
        il,
        LayerSlot::IndexerAttnQB,
    ));
    first_is_lowest(tensors, blk(il, "indexer.attn_q_b.weight"@), l.indexer_attn_q_b);
    assert(info(l.slot(LayerSlot::IndexerProj)) == layer_tensor(
        tensors,
        il,
        LayerSlot::IndexerProj,
    ));
    first_is_lowest(tensors, blk(il, "indexer.proj.weight"@), l.indexer_proj);
    assert(info(l.slot(LayerSlot::IndexerCompressorApe)) == layer_tensor(
        tensors,
        il,
        LayerSlot::IndexerCompressorApe,
    ));
    first_is_lowest(tensors, blk(il, "indexer_compressor_ape.weight"@), l.indexer_compressor_ape);
    assert(info(l.slot(LayerSlot::IndexerCompressorKv)) == layer_tensor(
        tensors,
        il,
        LayerSlot::IndexerCompressorKv,
    ));
    first_is_lowest(tensors, blk(il, "indexer_compressor_kv.weight"@), l.indexer_compressor_kv);
    assert(info(l.slot(LayerSlot::IndexerCompressorGate)) == layer_tensor(
        tensors,
        il,
        LayerSlot::IndexerCompressorGate,
    ));
    first_is_lowest(tensors, blk(il, "indexer_compressor_gate.weight"@), l.indexer_compressor_gate);
    assert(info(l.slot(LayerSlot::IndexerCompressorNorm)) == layer_tensor(
        tensors,
        il,
        LayerSlot::IndexerCompressorNorm,
    ));
    first_is_lowest(tensors, blk(il, "indexer_compressor_norm.weight"@), l.indexer_compressor_norm);
    assert(info(l.slot(LayerSlot::HcFfnFn)) == layer_tensor(tensors, il, LayerSlot::HcFfnFn));
    first_is_lowest(tensors, blk(il, "hc_ffn_fn.weight"@), l.hc_ffn_fn);
    assert(info(l.slot(LayerSlot::HcFfnScale)) == layer_tensor(tensors, il, LayerSlot::HcFfnScale));
    first_is_lowest(tensors, blk(il, "hc_ffn_scale.weight"@), l.hc_ffn_scale);
    assert(info(l.slot(LayerSlot::HcFfnBase)) == layer_tensor(tensors, il, LayerSlot::HcFfnBase));
    first_is_lowest(tensors, blk(il, "hc_ffn_base.weight"@), l.hc_ffn_base);
    assert(info(l.slot(LayerSlot::FfnNorm)) == layer_tensor(tensors, il, LayerSlot::FfnNorm));
    first_is_lowest(tensors, blk(il, "ffn_norm.weight"@), l.ffn_norm);
    assert(info(l.slot(LayerSlot::FfnGateTid2eid)) == layer_tensor(
        tensors,
        il,
        LayerSlot::FfnGateTid2eid,
    ));
    first_is_lowest(tensors, blk(il, "ffn_gate_tid2eid.weight"@), l.ffn_gate_tid2eid);
    assert(info(l.slot(LayerSlot::FfnGateInp)) == layer_tensor(tensors, il, LayerSlot::FfnGateInp));
    first_is_lowest(tensors, blk(il, "ffn_gate_inp.weight"@), l.ffn_gate_inp);
    assert(info(l.slot(LayerSlot::FfnExpProbsB)) is None);
    assert(info(l.slot(LayerSlot::FfnGateExps)) == layer_tensor(
        tensors,
        il,
        LayerSlot::FfnGateExps,
    ));
    first_is_lowest(tensors, blk(il, "ffn_gate_exps.weight"@), l.ffn_gate_exps);
    assert(info(l.slot(LayerSlot::FfnUpExps)) == layer_tensor(tensors, il, LayerSlot::FfnUpExps));
    first_is_lowest(tensors, blk(il, "ffn_up_exps.weight"@), l.ffn_up_exps);
    assert(info(l.slot(LayerSlot::FfnDownExps)) == layer_tensor(
        tensors,
        il,
        LayerSlot::FfnDownExps,
    ));
    first_is_lowest(tensors, blk(il, "ffn_down_exps.weight"@), l.ffn_down_exps);
    assert(info(l.slot(LayerSlot::FfnGateShexp)) == layer_tensor(
        tensors,
        il,
        LayerSlot::FfnGateShexp,
    ));
    first_is_lowest(tensors, blk(il, "ffn_gate_shexp.weight"@), l.ffn_gate_shexp);
    assert(info(l.slot(LayerSlot::FfnUpShexp)) == layer_tensor(tensors, il, LayerSlot::FfnUpShexp));
    first_is_lowest(tensors, blk(il, "ffn_up_shexp.weight"@), l.ffn_up_shexp);
    assert(info(l.slot(LayerSlot::FfnDownShexp)) == layer_tensor(
        tensors,
        il,
        LayerSlot::FfnDownShexp,
    ));
    first_is_lowest(tensors, blk(il, "ffn_down_shexp.weight"@), l.ffn_down_shexp);
}

/// Whoever asks the model for a slot of a layer gets the field of that name.
pub proof fn slots_are_the_fields_of_their_names(w: ModelWeights, il: usize)
    ensures
        ({
            let l = w.layers@[il as int];
            &&& w.weight(Weight::Layer(il, LayerSlot::HcAttnFn)) == l.hc_attn_fn
            &&& w.weight(Weight::Layer(il, LayerSlot::HcAttnScale)) == l.hc_attn_scale
            &&& w.weight(Weight::Layer(il, LayerSlot::HcAttnBase)) == l.hc_attn_base
            &&& w.weight(Weight::Layer(il, LayerSlot::AttnNorm)) == l.attn_norm
            &&& w.weight(Weight::Layer(il, LayerSlot::AttnQA)) == l.attn_q_a
            &&& w.weight(Weight::Layer(il, LayerSlot::AttnQANorm)) == l.attn_q_a_norm
            &&& w.weight(Weight::Layer(il, LayerSlot::AttnQB)) == l.attn_q_b
            &&& w.weight(Weight::Layer(il, LayerSlot::AttnKv)) == l.attn_kv
            &&& w.weight(Weight::Layer(il, LayerSlot::AttnKvANorm)) == l.attn_kv_a_norm
            &&& w.weight(Weight::Layer(il, LayerSlot::AttnSinks)) == l.attn_sinks
            &&& w.weight(Weight::Layer(il, LayerSlot::AttnOutputA)) == l.attn_output_a
            &&& w.weight(Weight::Layer(il, LayerSlot::AttnOutputB)) == l.attn_output_b
            &&& w.weight(Weight::Layer(il, LayerSlot::AttnCompressorApe)) == l.attn_compressor_ape
            &&& w.weight(Weight::Layer(il, LayerSlot::AttnCompressorKv)) == l.attn_compressor_kv
            &&& w.weight(Weight::Layer(il, LayerSlot::AttnCompressorGate)) == l.attn_compressor_gate
            &&& w.weight(Weight::Layer(il, LayerSlot::AttnCompressorNorm)) == l.attn_compressor_norm
            &&& w.weight(Weight::Layer(il, LayerSlot::IndexerAttnQB)) == l.indexer_attn_q_b
            &&& w.weight(Weight::Layer(il, LayerSlot::IndexerProj)) == l.indexer_proj
            &&& w.weight(
                Weight::Layer(il, LayerSlot::IndexerCompressorApe),
            ) == l.indexer_compressor_ape
            &&& w.weight(
                Weight::Layer(il, LayerSlot::IndexerCompressorKv),
            ) == l.indexer_compressor_kv
            &&& w.weight(
                Weight::Layer(il, LayerSlot::IndexerCompressorGate),
            ) == l.indexer_compressor_gate
            &&& w.weight(
                Weight::Layer(il, LayerSlot::IndexerCompressorNorm),
            ) == l.indexer_compressor_norm
            &&& w.weight(Weight::Layer(il, LayerSlot::HcFfnFn)) == l.hc_ffn_fn
            &&& w.weight(Weight::Layer(il, LayerSlot::HcFfnScale)) == l.hc_ffn_scale
            &&& w.weight(Weight::Layer(il, LayerSlot::HcFfnBase)) == l.hc_ffn_base
            &&& w.weight(Weight::Layer(il, LayerSlot::FfnNorm)) == l.ffn_norm
            &&& w.weight(Weight::Layer(il, LayerSlot::FfnGateTid2eid)) == l.ffn_gate_tid2eid
            &&& w.weight(Weight::Layer(il, LayerSlot::FfnGateInp)) == l.ffn_gate_inp
            &&& w.weight(Weight::Layer(il, LayerSlot::FfnExpProbsB)) == l.ffn_exp_probs_b
            &&& w.weight(Weight::Layer(il, LayerSlot::FfnGateExps)) == l.ffn_gate_exps
            &&& w.weight(Weight::Layer(il, LayerSlot::FfnUpExps)) == l.ffn_up_exps
            &&& w.weight(Weight::Layer(il, LayerSlot::FfnDownExps)) == l.ffn_down_exps
            &&& w.weight(Weight::Layer(il, LayerSlot::FfnGateShexp)) == l.ffn_gate_shexp
            &&& w.weight(Weight::Layer(il, LayerSlot::FfnUpShexp)) == l.ffn_up_shexp
            &&& w.weight(Weight::Layer(il, LayerSlot::FfnDownShexp)) == l.ffn_down_shexp
        }),
{
}

/// The tensors outside the layers are bound by their names too.
pub proof fn model_slots_hold_the_tensors_of_their_names(tensors: Seq<TensorInfo>, w: ModelWeights)
    requires
        binds(tensors, w),
    ensures
        holds_named(w.token_embd, tensors, "token_embd.weight"@),
        w.weight(Weight::Model(ModelSlot::TokenEmbd)) == w.token_embd,
        holds_named(w.output_hc_base, tensors, "output_hc_base.weight"@),
        w.weight(Weight::Model(ModelSlot::OutputHcBase)) == w.output_hc_base,
        holds_named(w.output_hc_fn, tensors, "output_hc_fn.weight"@),
        w.weight(Weight::Model(ModelSlot::OutputHcFn)) == w.output_hc_fn,
        holds_named(w.output_hc_scale, tensors, "output_hc_scale.weight"@),
        w.weight(Weight::Model(ModelSlot::OutputHcScale)) == w.output_hc_scale,
        holds_named(w.output_norm, tensors, "output_norm.weight"@),
        w.weight(Weight::Model(ModelSlot::OutputNorm)) == w.output_norm,
        holds_named(w.output, tensors, "output.weight"@),
        w.weight(Weight::Model(ModelSlot::Output)) == w.output,
{
    assert(info(w.slot(ModelSlot::TokenEmbd)) == first_named(
        tensors,
        model_name(ModelSlot::TokenEmbd),
    ));
    first_is_lowest(tensors, "token_embd.weight"@, w.token_embd);
    assert(info(w.slot(ModelSlot::OutputHcBase)) == first_named(
        tensors,
        model_name(ModelSlot::OutputHcBase),
    ));
    first_is_lowest(tensors, "output_hc_base.weight"@, w.output_hc_base);
    assert(info(w.slot(ModelSlot::OutputHcFn)) == first_named(
        tensors,
        model_name(ModelSlot::OutputHcFn),
    ));
    first_is_lowest(tensors, "output_hc_fn.weight"@, w.output_hc_fn);
    assert(info(w.slot(ModelSlot::OutputHcScale)) == first_named(
        tensors,
        model_name(ModelSlot::OutputHcScale),
    ));
    first_is_lowest(tensors, "output_hc_scale.weight"@, w.output_hc_scale);
    assert(info(w.slot(ModelSlot::OutputNorm)) == first_named(
        tensors,
        model_name(ModelSlot::OutputNorm),
    ));
    first_is_lowest(tensors, "output_norm.weight"@, w.output_norm);
    assert(info(w.slot(ModelSlot::Output)) == first_named(tensors, model_name(ModelSlot::Output)));
    first_is_lowest(tensors, "output.weight"@, w.output);
}

/// The text of a list of digits, read as a number.
pub open spec fn read_decimal(s: Seq<char>) -> nat
    decreases s.len(),
{
    if s.len() == 0 {
        0
    } else {
        10 * read_decimal(s.drop_last()) + (s.last() as nat - '0' as nat) as nat
    }
}

/// Numbers are written in digits, without zeros in front, and read back as themselves.
pub proof fn numbers_read_back(n: nat)
    ensures
        read_decimal(decimal(n)) == n,
        forall|i: int| 0 <= i < decimal(n).len() ==> '0' <= #[trigger] decimal(n)[i] <= '9',
        n > 0 ==> decimal(n)[0] != '0',
        decimal(n).len() > 0,
    decreases n,
{
    if n < 10 {
        let s = seq![digit(n)];
        assert(s.drop_last() =~= Seq::empty());
        assert(read_decimal(s.drop_last()) == 0);
    } else {
        numbers_read_back(n / 10);
        let s = decimal(n);
        assert(s.drop_last() =~= decimal(n / 10));
        assert forall|i: int| 0 <= i < s.len() implies '0' <= #[trigger] s[i] <= '9' by {
            if i < s.len() - 1 {
                assert(s[i] == decimal(n / 10)[i]);
            }
        }
        assert(s[0] == decimal(n / 10)[0]);
    }
}

/// A message calls a tensor of a layer by its name in the file, without the ending `.weight`; only
/// the key projection goes by another name.
pub proof fn messages_name_tensors_as_files_do(il: usize, s: LayerSlot, suffix: Seq<char>)
    requires
        layer_suffix(s) == Some(suffix),
        s != LayerSlot::AttnKv,
    ensures
        layer_name(il as nat, suffix) == label(Weight::Layer(il, s)) + ".weight"@,
{
    reveal_strlit(".weight");
    reveal_strlit("hc_attn_fn.weight");
    reveal_strlit("hc_attn_fn");
    reveal_strlit("hc_attn_scale.weight");
    reveal_strlit("hc_attn_scale");
    reveal_strlit("hc_attn_base.weight");
    reveal_strlit("hc_attn_base");
    reveal_strlit("attn_norm.weight");
    reveal_strlit("attn_norm");
    reveal_strlit("attn_q_a.weight");
    reveal_strlit("attn_q_a");
    reveal_strlit("attn_q_a_norm.weight");
    reveal_strlit("attn_q_a_norm");
    reveal_strlit("attn_q_b.weight");
    reveal_strlit("attn_q_b");
    reveal_strlit("attn_kv_a_norm.weight");
    reveal_strlit("attn_kv_a_norm");
    reveal_strlit("attn_sinks.weight");
    reveal_strlit("attn_sinks");
    reveal_strlit("attn_output_a.weight");
    reveal_strlit("attn_output_a");
    reveal_strlit("attn_output_b.weight");
    reveal_strlit("attn_output_b");
    reveal_strlit("attn_compressor_ape.weight");
    reveal_strlit("attn_compressor_ape");
    reveal_strlit("attn_compressor_kv.weight");
    reveal_strlit("attn_compressor_kv");
    reveal_strlit("attn_compressor_gate.weight");
    reveal_strlit("attn_compressor_gate");
    reveal_strlit("attn_compressor_norm.weight");
    reveal_strlit("attn_compressor_norm");
    reveal_strlit("indexer.attn_q_b.weight");
    reveal_strlit("indexer.attn_q_b");
    reveal_strlit("indexer.proj.weight");
    reveal_strlit("indexer.proj");
    reveal_strlit("indexer_compressor_ape.weight");
    reveal_strlit("indexer_compressor_ape");
    reveal_strlit("indexer_compressor_kv.weight");
    reveal_strlit("indexer_compressor_kv");
    reveal_strlit("indexer_compressor_gate.weight");
    reveal_strlit("indexer_compressor_gate");
    reveal_strlit("indexer_compressor_norm.weight");
    reveal_strlit("indexer_compressor_norm");
    reveal_strlit("hc_ffn_fn.weight");
    reveal_strlit("hc_ffn_fn");
    reveal_strlit("hc_ffn_scale.weight");
    reveal_strlit("hc_ffn_scale");
    reveal_strlit("hc_ffn_base.weight");
    reveal_strlit("hc_ffn_base");
    reveal_strlit("ffn_norm.weight");
    reveal_strlit("ffn_norm");
    reveal_strlit("ffn_gate_tid2eid.weight");
    reveal_strlit("ffn_gate_tid2eid");
    reveal_strlit("ffn_gate_inp.weight");
    reveal_strlit("ffn_gate_inp");
    reveal_strlit("ffn_gate_exps.weight");
    reveal_strlit("ffn_gate_exps");
    reveal_strlit("ffn_up_exps.weight");
    reveal_strlit("ffn_up_exps");
    reveal_strlit("ffn_down_exps.weight");
    reveal_strlit("ffn_down_exps");
    reveal_strlit("ffn_gate_shexp.weight");
    reveal_strlit("ffn_gate_shexp");
    reveal_strlit("ffn_up_shexp.weight");
    reveal_strlit("ffn_up_shexp");
    reveal_strlit("ffn_down_shexp.weight");
    reveal_strlit("ffn_down_shexp");
    assert(suffix =~= layer_label(s) + ".weight"@);
    assert(layer_name(il as nat, suffix) =~= label(Weight::Layer(il, s)) + ".weight"@);
}

} // verus!
