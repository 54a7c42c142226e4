//! Plans and counters of a session.
use deepseek_engine::model::{
    LayerSlot, ModelSlot, ModelWeights, TensorMeta, TensorType, Weight, N_LAYER,
};
use deepseek_engine::session::layer::raw_window;
use deepseek_engine::session::prefill::PrefillError;
use deepseek_engine::session::state::{find_missing, has_slot, Session};
use deepseek_engine::session::step::{buf_len, compress_ratio, rope_params, Buf, Step};

fn tensor() -> Option<TensorMeta> {
    Some(TensorMeta { name: "t".to_string(), ty: TensorType::F16, dims: vec![1], offset: 0 })
}

/// A file that holds every tensor that a layer may have.
fn all_weights() -> ModelWeights {
    let mut w = ModelWeights::new();
    w.token_embd = tensor();
    w.output_norm = tensor();
    w.output = tensor();
    w.output_hc_fn = tensor();
    w.output_hc_scale = tensor();
    w.output_hc_base = tensor();
    for il in 0..N_LAYER {
        let l = &mut w.layers[il];
        l.attn_norm = tensor();
        l.attn_q_a = tensor();
        l.attn_q_a_norm = tensor();
        l.attn_q_b = tensor();
        l.attn_kv = tensor();
        l.attn_kv_a_norm = tensor();
        l.attn_sinks = tensor();
        l.attn_output_a = tensor();
        l.attn_output_b = tensor();
        l.hc_attn_fn = tensor();
        l.hc_attn_scale = tensor();
        l.hc_attn_base = tensor();
        l.ffn_norm = tensor();
        l.ffn_gate_inp = tensor();
        l.ffn_gate_exps = tensor();
        l.ffn_up_exps = tensor();
        l.ffn_down_exps = tensor();
        l.ffn_gate_shexp = tensor();
        l.ffn_up_shexp = tensor();
        l.ffn_down_shexp = tensor();
        l.hc_ffn_fn = tensor();
        l.hc_ffn_scale = tensor();
        l.hc_ffn_base = tensor();
        if il < 3 {
            l.ffn_gate_tid2eid = tensor();
        }
        if compress_ratio(il) != 0 {
            l.attn_compressor_ape = tensor();
            l.attn_compressor_kv = tensor();
            l.attn_compressor_gate = tensor();
            l.attn_compressor_norm = tensor();
        }
        if compress_ratio(il) == 4 {
            l.indexer_attn_q_b = tensor();
            l.indexer_proj = tensor();
            l.indexer_compressor_ape = tensor();
            l.indexer_compressor_kv = tensor();
            l.indexer_compressor_gate = tensor();
            l.indexer_compressor_norm = tensor();
        }
    }
    w
}

fn apply_all(s: &mut Session, steps: &[Step]) {
    for step in steps {
        s.apply(step);
    }
}

fn attention_of(steps: &[Step]) -> Vec<&Step> {
    steps
        .iter()
        .filter(|s| matches!(s, Step::DecodeMixed { .. } | Step::IndexedMixed { .. }))
        .collect()
}

#[test]
fn layers_alternate_between_ratios() {
    assert_eq!(compress_ratio(0), 0);
    assert_eq!(compress_ratio(1), 0);
    assert_eq!(compress_ratio(2), 4);
    assert_eq!(compress_ratio(3), 128);
    assert_eq!(compress_ratio(42), 4);
    assert_eq!(f32::from_bits(rope_params(0).freq_base), 10000.0);
    assert_eq!(f32::from_bits(rope_params(2).freq_base), 160000.0);
    assert_eq!(f32::from_bits(rope_params(2).freq_scale), 1.0 / 16.0);
    assert_eq!(f32::from_bits(rope_params(0).ext_factor), 0.0);
    assert_eq!(f32::from_bits(rope_params(3).ext_factor), 1.0);
}

#[test]
fn capacities_follow_from_the_context() {
    let s = Session::new(512);
    assert_eq!(s.pos(), 0);
    assert_eq!(s.raw_cap, 128);
    assert_eq!(s.comp_cap, 130);
    assert_eq!(buf_len(Buf::RawCache(0), s.comp_cap, 0), 128 * 512);
    assert_eq!(buf_len(Buf::AttnCompCache(0), s.comp_cap, 0), 1);
    assert_eq!(buf_len(Buf::AttnCompCache(2), s.comp_cap, 0), 130 * 512);
    assert_eq!(buf_len(Buf::IndexCompCache(3), s.comp_cap, 0), 1);
    assert_eq!(buf_len(Buf::BQ, s.comp_cap, 7), 7 * 32768);
}

#[test]
fn windows_are_the_last_positions() {
    assert_eq!(raw_window(0), (1, 0));
    assert_eq!(raw_window(127), (128, 0));
    assert_eq!(raw_window(128), (128, 1));
    assert_eq!(raw_window(300), (128, 45));
}

#[test]
fn decoding_moves_on_by_one() {
    let w = all_weights();
    let mut s = Session::new(512);
    for pos in 0..9usize {
        assert_eq!(s.pos(), pos);
        let plan = s.decode_next(&w, 5);
        assert_eq!(find_missing(&w, &plan), None);
        assert!(matches!(plan.last(), Some(Step::Advance { n: 1 })));
        assert_eq!(plan.iter().filter(|p| matches!(p, Step::ReadLogits)).count(), 1);
        assert_eq!(attention_of(&plan).len(), N_LAYER);
        apply_all(&mut s, &plan);
    }
    // Nine tokens: two whole windows of four.
    assert_eq!(s.layer_n_comp[0], 0);
    assert_eq!(s.layer_n_comp[2], 2);
    assert_eq!(s.layer_n_comp[3], 0);
}

#[test]
fn a_prompt_counts_like_its_tokens() {
    let w = all_weights();
    let tokens: Vec<i32> = (0..133).collect();
    let mut one_by_one = Session::new(512);
    for &t in &tokens {
        let plan = one_by_one.decode_next(&w, t);
        apply_all(&mut one_by_one, &plan);
    }
    let mut at_once = Session::new(512);
    let plan = at_once.prefill(&w, &tokens).unwrap();
    assert_eq!(find_missing(&w, &plan), None);
    apply_all(&mut at_once, &plan);
    assert_eq!(at_once.pos(), 133);
    assert_eq!(at_once.layer_n_comp, one_by_one.layer_n_comp);
    assert_eq!(at_once.layer_n_comp[2], 33);
    assert_eq!(at_once.layer_n_comp[3], 1);
}

/// Follows the ring of a layer through a plan: what each row of it holds. Attention of a single
/// token has to find the positions of its window.
fn follow_ring(plan: &[Step], il: usize, ring: &mut Vec<Option<u32>>) -> usize {
    let mut seen = 0;
    for step in plan {
        match *step {
            Step::StoreRaw { cache, pos, n_tok, raw_cap, .. } if cache == Buf::RawCache(il) => {
                for p in pos..pos + n_tok {
                    ring[(p % raw_cap) as usize] = Some(p);
                }
            }
            Step::DecodeMixed { raw, pos, n_raw, raw_cap, raw_start, .. }
                if raw == Buf::RawCache(il) =>
            {
                for r in 0..n_raw {
                    let row = (raw_start + r) % raw_cap;
                    assert_eq!(ring[row as usize], Some(pos + 1 - n_raw + r));
                }
                seen += 1;
            }
            Step::PrefillRaw { raw, n_tok, .. } if raw == Buf::RawCache(il) => {
                for p in 0..n_tok {
                    assert_eq!(ring[p as usize], Some(p));
                }
                seen += n_tok as usize;
            }
            _ => {}
        }
    }
    seen
}

#[test]
fn prompts_find_their_window_in_the_ring() {
    let w = all_weights();
    for il in [0, 3, 42] {
        // One token, a prompt of one chunk, a prompt of three.
        let mut ring = vec![None; 128];
        let mut s = Session::new(1024);
        let plan = s.decode_next(&w, 0);
        assert_eq!(follow_ring(&plan, il, &mut ring), 1);
        apply_all(&mut s, &plan);
        for n in [128, 300] {
            let tokens: Vec<i32> = (0..n).collect();
            let plan = s.prefill(&w, &tokens).unwrap();
            assert_eq!(follow_ring(&plan, il, &mut ring), n as usize);
            apply_all(&mut s, &plan);
        }
        // A fresh session.
        let mut ring = vec![None; 128];
        let s = Session::new(1024);
        let tokens: Vec<i32> = (0..200).collect();
        let plan = s.prefill(&w, &tokens).unwrap();
        assert_eq!(follow_ring(&plan, il, &mut ring), 200);
    }
}

#[test]
fn prompts_are_refused_where_there_is_no_room() {
    let w = all_weights();
    let mut s = Session::new(8);
    assert_eq!(s.prefill(&w, &[]), Err(PrefillError::Empty));
    assert_eq!(
        s.prefill(&w, &[1; 9]),
        Err(PrefillError::ExceedsContext { filled: 0, tokens: 9, ctx_size: 8 })
    );
    let plan = s.prefill(&w, &[1; 8]).unwrap();
    apply_all(&mut s, &plan);
    assert_eq!(
        s.prefill(&w, &[1]),
        Err(PrefillError::ExceedsContext { filled: 8, tokens: 1, ctx_size: 8 })
    );
}

#[test]
fn many_rows_are_selected_from() {
    let w = all_weights();
    let mut s = Session::new(4096);
    s.n_filled = 2100;
    for il in 0..N_LAYER {
        let r = compress_ratio(il);
        s.layer_n_comp[il] = if r == 0 { 0 } else { 2100 / r };
    }
    let plan = s.decode_next(&w, 5);
    let attention = attention_of(&plan);
    assert!(matches!(attention[0], Step::DecodeMixed { n_comp: 0, ratio: 0, .. }));
    assert!(matches!(attention[2], Step::IndexedMixed { n_comp: 525, top_k: 512, ratio: 4, .. }));
    assert!(matches!(attention[3], Step::DecodeMixed { n_comp: 16, ratio: 128, .. }));
    assert!(plan.iter().any(|p| matches!(p, Step::IndexTopk { n_comp: 525, n_sort: 1024, .. })));
    assert!(plan.iter().any(|p| matches!(p, Step::IndexScore { ratio: 4, causal: true, .. })));
    // The window of position 2100 starts at row 2101 - 128, which is 53 rows round the ring.
    assert!(matches!(attention[0], Step::DecodeMixed { n_raw: 128, raw_start: 53, .. }));
}

#[test]
fn missing_tensors_are_named() {
    let mut w = all_weights();
    w.layers[1].attn_q_b = None;
    assert!(!has_slot(&w, 1, LayerSlot::AttnQB));
    let s = Session::new(64);
    let plan = s.decode_next(&w, 5);
    let (before, missing) = find_missing(&w, &plan).unwrap();
    assert_eq!(missing, Weight::Layer(1, LayerSlot::AttnQB));
    assert!(matches!(plan[before], Step::Need(Weight::Layer(1, LayerSlot::AttnQB))));
    w.token_embd = None;
    let plan = s.decode_next(&w, 5);
    assert_eq!(find_missing(&w, &plan), Some((0, Weight::Model(ModelSlot::TokenEmbd))));
}

#[test]
fn kernel_steps_have_a_launch() {
    let w = all_weights();
    let s = Session::new(64);
    for step in s.decode_next(&w, 5) {
        match step {
            Step::Need(_) | Step::Advance { .. } | Step::ReadLogits | Step::EmitRow { .. }
            | Step::Swap { .. } | Step::CopyRow { .. } => assert!(step.config().is_none()),
            _ => {
                let c = step.config().unwrap();
                assert!(c.grid_dim.0 > 0 && c.grid_dim.1 > 0);
                assert!(c.block_dim.0 > 0 && c.block_dim.0 <= 1024);
            }
        }
    }
}

#[test]
fn a_plan_that_stops_leaves_the_position() {
    let mut w = all_weights();
    let mut s = Session::new(512);
    for token in 0..5 {
        let plan = s.decode_next(&w, token);
        // The same steps as at the current position, and one that moves it on.
        let here = s.decode(&w, token, s.pos() as u32);
        assert_eq!(plan[..here.len()], here[..]);
        assert_eq!(plan.len(), here.len() + 1);
        apply_all(&mut s, &plan);
        assert_eq!(s.pos(), token as usize + 1);
    }
    w.output = None;
    let plan = s.decode_next(&w, 5);
    let (done, missing) = find_missing(&w, &plan).unwrap();
    assert_eq!(missing, Weight::Model(ModelSlot::Output));
    assert_eq!(find_missing(&w, &s.decode(&w, 5, 5)), Some((done, missing)));
    apply_all(&mut s, &plan[..done]);
    assert_eq!(s.pos(), 5);
}
