//! Plans for single tokens.
use vstd::prelude::*;

use crate::model::{
    LayerSlot, ModelSlot, ModelWeights, Weight, N_EMBD, N_HC, N_LAYER, N_VOCAB,
};
use crate::session::compressor::{
    attn_steps, index_steps, next_row, run_attn_compressor_step, run_index_compressor_step,
};
use crate::session::layer::{
    attention_steps, attn_in, decode_attn_out_and_ffn, hc_in_steps, index_query_steps,
    out_and_ffn_steps, push_attention, push_hc_in, push_index_query, push_qkv, qkv_steps, HcIn,
    BLOCKS_EMBD,
};
use crate::session::state::Session;
use crate::session::step::{Buf, Step, HC_DIM};

verus! {

/// One layer for the token at `pos`, where `row` compressed rows are in the layer's cache.
///
/// The index compressor comes before the attention compressor, so that both go by the same
/// number of rows; attention comes after both and sees a row that they have just completed.
pub open spec fn layer_steps(
    w: ModelWeights,
    il: usize,
    pos: u32,
    token: i32,
    row: u32,
    comp_cap: int,
) -> Seq<Step> {
    hc_in_steps(attn_in(il)) + qkv_steps(il, pos) + index_query_steps(w, il, pos) + index_steps(
        w,
        il,
        pos,
        row,
        comp_cap,
    ) + attn_steps(w, il, pos, row, comp_cap) + attention_steps(
        w,
        il,
        pos,
        next_row(w, il as int, pos as int, row, comp_cap),
    ) + out_and_ffn_steps(w, il, pos, token)
}

/// The first `n` layers for the token at `pos`.
pub open spec fn layers_steps(
    w: ModelWeights,
    n: nat,
    pos: u32,
    token: i32,
    rows: Seq<u32>,
    comp_cap: int,
) -> Seq<Step>
    decreases n,
{
    if n == 0 {
        Seq::empty()
    } else {
        layers_steps(w, (n - 1) as nat, pos, token, rows, comp_cap) + layer_steps(
            w,
            (n - 1) as usize,
            pos,
            token,
            rows[n - 1],
            comp_cap,
        )
    }
}

/// The embedding of a token becomes each of its residual streams.
pub open spec fn embed_steps(token: i32) -> Seq<Step> {
    seq![
        Step::Need(Weight::Model(ModelSlot::TokenEmbd)),
        Step::EmbedToken {
            w: Weight::Model(ModelSlot::TokenEmbd),
            out: Buf::CurHc,
            token: token as u32,
        },
    ]
}

/// From the residual streams of the last layer to the logits.
pub open spec fn output_steps() -> Seq<Step> {
    seq![
        Step::RmsNormPlain { x: Buf::CurHc, out: Buf::FlatHc, n: HC_DIM as u32, rows: 1 },
        Step::Need(Weight::Model(ModelSlot::OutputHcFn)),
        Step::Need(Weight::Model(ModelSlot::OutputHcScale)),
        Step::Need(Weight::Model(ModelSlot::OutputHcBase)),
        Step::MatmulF16 {
            w: Weight::Model(ModelSlot::OutputHcFn),
            x: Buf::FlatHc,
            out: Buf::HcMix,
            in_dim: HC_DIM as u64,
            out_dim: N_HC as u64,
            n_tok: 1,
        },
        Step::OutputHcWeights {
            pre: Buf::HcMix,
            scale: Weight::Model(ModelSlot::OutputHcScale),
            base: Weight::Model(ModelSlot::OutputHcBase),
            out: Buf::OutputWeights,
        },
        Step::HcWeightedSum { x: Buf::CurHc, weights: Buf::OutputWeights, out: Buf::OutputEmbd },
        Step::Need(Weight::Model(ModelSlot::OutputNorm)),
        Step::RmsNormWeight {
            x: Buf::OutputEmbd,
            w: Weight::Model(ModelSlot::OutputNorm),
            out: Buf::OutputNorm,
            n: N_EMBD as u32,
            rows: 1,
        },
        Step::Need(Weight::Model(ModelSlot::Output)),
        Step::QuantizeQ8 {
            x: Buf::OutputNorm,
            xq: Buf::XqI8,
            xscale: Buf::Xscale,
            in_dim: N_EMBD as u64,
            blocks: BLOCKS_EMBD,
            rows: 1,
        },
        Step::MatmulQ8 {
            w: Weight::Model(ModelSlot::Output),
            xq: Buf::XqI8,
            xscale: Buf::Xscale,
            out: Buf::Logits,
            in_dim: N_EMBD as u64,
            out_dim: N_VOCAB as u64,
            blocks: BLOCKS_EMBD,
        },
    ]
}

/// All of one token, up to its logits.
pub open spec fn decode_steps(
    w: ModelWeights,
    pos: u32,
    token: i32,
    rows: Seq<u32>,
    comp_cap: int,
) -> Seq<Step> {
    embed_steps(token) + layers_steps(w, N_LAYER as nat, pos, token, rows, comp_cap)
        + output_steps() + seq![Step::ReadLogits]
}

/// Appends the steps from the residual streams to the logits.
pub fn decode_output(out: &mut Vec<Step>)
    ensures
        final(out)@ == old(out)@ + output_steps(),
{
    out.push(Step::RmsNormPlain { x: Buf::CurHc, out: Buf::FlatHc, n: HC_DIM as u32, rows: 1 });
    out.push(Step::Need(Weight::Model(ModelSlot::OutputHcFn)));
    out.push(Step::Need(Weight::Model(ModelSlot::OutputHcScale)));
    out.push(Step::Need(Weight::Model(ModelSlot::OutputHcBase)));
    out.push(
        Step::MatmulF16 {
            w: Weight::Model(ModelSlot::OutputHcFn),
            x: Buf::FlatHc,
            out: Buf::HcMix,
            in_dim: HC_DIM as u64,
            out_dim: N_HC as u64,
            n_tok: 1,
        },
    );
    out.push(
        Step::OutputHcWeights {
            pre: Buf::HcMix,
            scale: Weight::Model(ModelSlot::OutputHcScale),
            base: Weight::Model(ModelSlot::OutputHcBase),
            out: Buf::OutputWeights,
        },
    );
    out.push(
        Step::HcWeightedSum { x: Buf::CurHc, weights: Buf::OutputWeights, out: Buf::OutputEmbd },
    );
    out.push(Step::Need(Weight::Model(ModelSlot::OutputNorm)));
    out.push(
        Step::RmsNormWeight {
            x: Buf::OutputEmbd,
            w: Weight::Model(ModelSlot::OutputNorm),
            out: Buf::OutputNorm,
            n: N_EMBD as u32,
            rows: 1,
        },
    );
    out.push(Step::Need(Weight::Model(ModelSlot::Output)));
    out.push(
        Step::QuantizeQ8 {
            x: Buf::OutputNorm,
            xq: Buf::XqI8,
            xscale: Buf::Xscale,
            in_dim: N_EMBD as u64,
            blocks: BLOCKS_EMBD,
            rows: 1,
        },
    );
    out.push(
        Step::MatmulQ8 {
            w: Weight::Model(ModelSlot::Output),
            xq: Buf::XqI8,
            xscale: Buf::Xscale,
            out: Buf::Logits,
            in_dim: N_EMBD as u64,
            out_dim: N_VOCAB as u64,
            blocks: BLOCKS_EMBD,
        },
    );
    assert(out@ =~= old(out)@ + output_steps());
}

impl Session {
    /// Appends one layer for the token at `pos`.
    pub fn decode_layer(
        &self,
        w: &ModelWeights,
        il: usize,
        pos: u32,
        token: i32,
        out: &mut Vec<Step>,
    )
        requires
            self.wf(),
            w.wf(),
            il < N_LAYER,
            pos < u32::MAX,
        ensures
            final(out)@ == old(out)@ + layer_steps(
                *w,
                il,
                pos,
                token,
                self.layer_n_comp@[il as int],
                self.comp_cap as int,
            ),
    {
        let h = HcIn {
            layer: il,
            mix_w: LayerSlot::HcAttnFn,
            scale: LayerSlot::HcAttnScale,
            base: LayerSlot::HcAttnBase,
            norm: LayerSlot::AttnNorm,
            x: Buf::CurHc,
            flat: Buf::FlatHc,
            mix: Buf::HcMix,
            split: Buf::HcSplit,
            cur: Buf::AttnCur,
            normed: Buf::AttnNorm,
            rows: 1,
        };
        let row: u32 = self.layer_n_comp[il];
        push_hc_in(&h, out);
        push_qkv(il, pos, out);
        push_index_query(w, il, pos, out);
        run_index_compressor_step(w, il, pos, row, self.comp_cap, out);
        let row_after: u32 = run_attn_compressor_step(w, il, pos, row, self.comp_cap, out);
        push_attention(w, il, pos, row_after, out);
        decode_attn_out_and_ffn(w, il, pos, token, out);
        assert(out@ =~= old(out)@ + layer_steps(
            *w,
            il,
            pos,
            token,
            self.layer_n_comp@[il as int],
            self.comp_cap as int,
        ));
    }

    /// The plan for one token at position `pos`.
    pub fn decode(&self, w: &ModelWeights, token: i32, pos: u32) -> (out: Vec<Step>)
        requires
            self.wf(),
            w.wf(),
            pos < u32::MAX,
        ensures
            out@ == decode_steps(*w, pos, token, self.layer_n_comp@, self.comp_cap as int),
    {
        let mut out: Vec<Step> = Vec::new();
        out.push(Step::Need(Weight::Model(ModelSlot::TokenEmbd)));
        out.push(
            Step::EmbedToken {
                w: Weight::Model(ModelSlot::TokenEmbd),
                out: Buf::CurHc,
                token: token as u32,
            },
        );
        assert(out@ =~= embed_steps(token));
        let ghost first = out@;
        let mut il: usize = 0;
        assert(out@ =~= first + layers_steps(
            *w,
            0,
            pos,
            token,
            self.layer_n_comp@,
            self.comp_cap as int,
        ));
        while il < N_LAYER
            invariant
                il <= N_LAYER,
                self.wf(),
                w.wf(),
                pos < u32::MAX,
                out@ == first + layers_steps(
                    *w,
                    il as nat,
                    pos,
                    token,
                    self.layer_n_comp@,
                    self.comp_cap as int,
                ),
            decreases N_LAYER - il,
        {
            let ghost before = out@;
            self.decode_layer(w, il, pos, token, &mut out);
            il = il + 1;
            assert(out@ =~= first + layers_steps(
                *w,
                il as nat,
                pos,
                token,
                self.layer_n_comp@,
                self.comp_cap as int,
            ));
        }
        decode_output(&mut out);
        out.push(Step::ReadLogits);
        assert(out@ =~= decode_steps(*w, pos, token, self.layer_n_comp@, self.comp_cap as int));
        out
    }

    /// The plan for one token at the current position. The position moves on once the logits
    /// are read.
    pub fn decode_next(&self, w: &ModelWeights, token: i32) -> (out: Vec<Step>)
        requires
            self.wf(),
            w.wf(),
            self.n_filled < u32::MAX,
        ensures
            out@ == decode_steps(
                *w,
                self.n_filled as u32,
                token,
                self.layer_n_comp@,
                self.comp_cap as int,
            ).push(Step::Advance { n: 1 }),
    {
        let mut out: Vec<Step> = self.decode(w, token, self.n_filled as u32);
        out.push(Step::Advance { n: 1 });
        out
    }
}

} // verus!
