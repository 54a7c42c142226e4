//! The kernels on concrete values.
use deepseek_engine::kernels::attention::{
    attn_warp_max, count_decode_scores, decode_mixed, decode_mixed_heads8_online, head_offset, indexed_mixed,
    indexed_mixed_heads8_online, lane_element, load_stage, max_score, pack_group_heads_f16,
    prefill_mixed, prefill_mixed_softmax, prefill_pack_mixed_kv, prefill_raw, prefill_raw_softmax,
    prefill_unpack_heads, static_mixed_heads8_online, unpack_group_low, KeyUse, RawCache, Row,
};
use deepseek_engine::kernels::bitonic::bitonic_sort;
use deepseek_engine::kernels::dequant::{dequant_q8_0_to_f16, dequant_q8_0_to_f32};
use deepseek_engine::kernels::embed::{embed_token_hc, embed_tokens_hc, token_row};
use deepseek_engine::kernels::float::{float_eq, float_gt, float_is_nan, NEG_INF};
use deepseek_engine::kernels::fp8::{e4m3fn_dequant, e4m3fn_value};
use deepseek_engine::kernels::hc::{
    comb_offset, compressor_prefill_pool, compressor_set_rows, compressor_shift_ratio4,
    compressor_store, compressor_update_pool, model_scalar_hc, post_offset, state_width, store_row,
    stream_offset, Candidate, Place,
};
use deepseek_engine::kernels::indexer::{
    indexed_topk_sort_512_asc, indexer_topk, indexer_topk_bitonic, indexer_topk_bitonic_u16,
    indexer_topk_chunk_bitonic, indexer_topk_merge_bitonic, indexer_topk_tree_merge_bitonic,
    is_masked, topk_mask, topk_score_better, Rising,
};
use deepseek_engine::kernels::kv_cache::store_raw_kv_batch;
use deepseek_engine::kernels::matmul::{dot_i8, ordered_chunk};
use deepseek_engine::kernels::moe::{
    down_row, expert_index, gate_row, moe_build_expert_tile_offsets, moe_build_expert_tiles,
    moe_count_sorted_pairs, moe_down_qwarp32, moe_down_sorted_qwarp32, moe_down_sum6_qwarp32,
    moe_gate_up_mid_qwarp32, moe_sum,
    moe_gate_up_mid_sorted_qwarp32, moe_prefix_sorted_pairs, moe_scatter_sorted_pairs, pair_parts,
    router_score_better, router_select,
    router_select_parallel, router_select_warp_topk, select_experts,
    select_experts_in_rounds,
};
use deepseek_engine::kernels::quantize::{clamp_i8, q8k_block, q8k_quantize, quantize_q8_0};
use deepseek_engine::kernels::reduce::{block_peak, float_abs, Peak};
use deepseek_engine::kernels::rope::rope_tail;
use deepseek_engine::kernels::scores::{indexer_score_one_direct, indexer_scores, HeadScore};
use deepseek_engine::kernels::streams::{
    hc_expand, hc_weighted_sum, matmul_q8_0_hc_expand_preq_warp8, Product,
};
use deepseek_engine::kernels::utils::{
    copy_f32_at_offset, f16_bits_to_f32, f32_to_f16, f32_to_f16_bits, fill_f32, repeat_hc, zero_f32,
};
use deepseek_engine::pow2::next_power_of_two;

fn bits(vs: &[f32]) -> Vec<u32> {
    vs.iter().map(|v| v.to_bits()).collect()
}

// ── Floating-point patterns ─────────────────────────────────────────────────

#[test]
fn patterns_compare_as_numbers_do() {
    let vs = [
        f32::NEG_INFINITY, -3.5, -1.0e-40, -0.0, 0.0, 1.0e-40, 0.25, 7.0, f32::INFINITY, f32::NAN,
    ];
    for a in vs {
        assert_eq!(float_is_nan(a.to_bits()), a.is_nan());
        for b in vs {
            assert_eq!(float_gt(a.to_bits(), b.to_bits()), a > b);
            assert_eq!(float_eq(a.to_bits(), b.to_bits()), a == b);
        }
    }
}

#[test]
fn half_precision_keeps_what_it_can_hold() {
    for h in [0x0000u16, 0x8000, 0x3C00, 0xBC00, 0x3555, 0x7BFF, 0x7C00, 0x0400] {
        let wide = f16_bits_to_f32(h);
        assert_eq!(wide, half::f16::from_bits(h).to_f32().to_bits());
        assert_eq!(f32_to_f16_bits(wide), h);
    }
    // Too small for a normal number: zero. Too large: infinity. In between: toward zero.
    assert_eq!(f16_bits_to_f32(0x0001), 0);
    assert_eq!(f32_to_f16_bits(1.0e-6f32.to_bits()), 0);
    assert_eq!(f32_to_f16_bits(1.0e6f32.to_bits()), 0x7C00);
    assert_eq!(f32_to_f16_bits(1.0009f32.to_bits()), 0x3C00);
    assert_eq!(f32_to_f16(&bits(&[1.0, -2.0])), vec![0x3C00, 0xC000]);
}

#[test]
fn eight_bit_numbers_have_their_values() {
    assert_eq!(f32::from_bits(e4m3fn_value(0)), 0.0);
    assert_eq!(f32::from_bits(e4m3fn_value(1)), 1.0 / 512.0);
    assert_eq!(f32::from_bits(e4m3fn_value(7)), 7.0 / 512.0);
    assert_eq!(f32::from_bits(e4m3fn_value(126)), 448.0);
    for i in 0..127i32 {
        let (exp, mant) = ((i >> 3) & 15, i & 7);
        let want = if exp == 0 {
            mant as f32 / 512.0
        } else {
            (1.0 + mant as f32 * 0.125) * 2.0f32.powi(exp - 7)
        };
        assert_eq!(f32::from_bits(e4m3fn_value(i)), want);
    }
}

#[test]
fn rounding_to_eight_bits_takes_the_nearest() {
    let round = |x: f32| f32::from_bits(e4m3fn_dequant(x.to_bits()));
    assert_eq!(round(1.0), 1.0);
    assert_eq!(round(-1.06), -1.0);
    assert_eq!(round(1.07), 1.125);
    // Half way: to the even one.
    assert_eq!(round(1.0625), 1.0);
    assert_eq!(round(1.1875), 1.25);
    assert_eq!(round(1.0 / 1024.0), 0.0);
    assert_eq!(round(3.0 / 1024.0), 2.0 / 512.0);
    assert_eq!(round(15.0 / 1024.0), 8.0 / 512.0);
    assert_eq!(round(1000.0), 448.0);
    assert_eq!(round(f32::NEG_INFINITY), -448.0);
    assert_eq!(round(f32::NAN), 448.0);
    assert_eq!(e4m3fn_dequant((-0.0f32).to_bits()), 0);
    assert_eq!(e4m3fn_dequant((-1.0e-9f32).to_bits()), (-0.0f32).to_bits());
    // Rounding twice is rounding once, and keeps order.
    let mut last = f32::NEG_INFINITY;
    for k in -500..500 {
        let r = round(k as f32 * 0.917);
        assert_eq!(round(r), r);
        assert!(r >= last);
        last = r;
    }
}

#[test]
fn peaks_are_found_by_halving() {
    let x = bits(&[1.0, -5.0, 5.0, 0.5]);
    assert_eq!(float_abs((-5.0f32).to_bits()), 5.0f32.to_bits());
    assert_eq!(float_abs(0x8000_0000), 0x8000_0000);
    let p = block_peak(&x, 0, 4, 4, false);
    assert_eq!(p, Peak { abs: 5.0f32.to_bits(), val: (5.0f32).to_bits() });
    // Of equal sizes the first of a pair stays, or the second.
    let y = bits(&[-5.0, 5.0]);
    assert_eq!(block_peak(&y, 0, 2, 2, false).val, (-5.0f32).to_bits());
    assert_eq!(block_peak(&y, 0, 2, 2, true).val, 5.0f32.to_bits());
    // Threads past the end hold zero.
    assert_eq!(block_peak(&x, 3, 1, 32, false).abs, 0.5f32.to_bits());
}

// ── Data movement ───────────────────────────────────────────────────────────

#[test]
fn buffers_are_filled_and_copied() {
    let mut x = vec![1u32, 2, 3, 4];
    fill_f32(&mut x, 9);
    assert_eq!(x, vec![9, 9, 9, 9]);
    zero_f32(&mut x);
    assert_eq!(x, vec![0, 0, 0, 0]);
    copy_f32_at_offset(&[5, 6], &mut x, 1);
    assert_eq!(x, vec![0, 5, 6, 0]);
    assert_eq!(repeat_hc(&[7, 8], 2, 3), vec![7, 8, 7, 8, 7, 8]);
}

#[test]
fn embeddings_are_repeated_for_every_stream() {
    let w = [0x3C00u16, 0x4000, 0xBC00, 0x3800];
    let one = 1.0f32.to_bits();
    let two = 2.0f32.to_bits();
    let minus = (-1.0f32).to_bits();
    let half = 0.5f32.to_bits();
    assert_eq!(embed_token_hc(&w, 1, 2, 2), vec![minus, half, minus, half]);
    // Tokens outside the vocabulary are clamped to it.
    assert_eq!(embed_tokens_hc(&[0, -3, 9], &w, 2, 2, 1), vec![one, two, one, two, minus, half]);
    assert_eq!(embed_tokens_hc(&[7, -3], &w[..2], 2, 1, 2), vec![two, two, one, one]);
    assert_eq!(token_row(1, 2), 1);
    assert_eq!(token_row(2, 2), 1);
    assert_eq!(token_row(-1, 2), 0);
}

#[test]
fn raw_rows_go_round_the_ring() {
    let mut raw = vec![0u32; 6];
    let kv = bits(&[1.0, 2.0, 3.0, 4.0]);
    store_raw_kv_batch(&kv, &mut raw, 3, 5, 2, 2);
    // Position 5 goes to row 2, position 6 to row 0.
    assert_eq!(raw, bits(&[3.0, 4.0, 0.0, 0.0, 1.0, 2.0]));
    // In two parts it is the same.
    let mut parts = vec![0u32; 6];
    store_raw_kv_batch(&kv[..2], &mut parts, 3, 5, 1, 2);
    store_raw_kv_batch(&kv[2..], &mut parts, 3, 6, 1, 2);
    assert_eq!(parts, raw);
    // Numbers are kept with 16-bit precision.
    let mut r = vec![0u32; 1];
    store_raw_kv_batch(&bits(&[1.0009]), &mut r, 1, 0, 1, 1);
    assert_eq!(r, bits(&[1.0]));
}

#[test]
fn blocks_are_turned() {
    // Two heads, three tokens, two numbers.
    let tmp: Vec<u32> = (0..12).collect();
    let heads = prefill_unpack_heads(&tmp, 3, 2, 2);
    assert_eq!(heads, vec![0, 1, 6, 7, 2, 3, 8, 9, 4, 5, 10, 11]);
    // Turning back.
    assert_eq!(unpack_group_low(&heads, 2, 3, 2), tmp);
    assert_eq!(unpack_group_low(&tmp, 3, 2, 2), heads);
    let packed = pack_group_heads_f16(&bits(&[1.0, 2.0, 3.0, 4.0]), 2, 2, 1);
    assert_eq!(packed, vec![0x3C00, 0x4200, 0x4000, 0x4400]);
    assert_eq!(prefill_pack_mixed_kv(&[1, 2, 3, 4, 9], &[5, 6, 7], 2, 1, 2), vec![1, 2, 3, 4, 5, 6]);
    assert_eq!(head_offset(2, 1, 4, 8), 72);
}

// ── Attention ───────────────────────────────────────────────────────────────

#[test]
fn prompts_attend_to_their_window() {
    assert_eq!(prefill_raw(0, 2), vec![Row::Raw(0)]);
    assert_eq!(prefill_raw(5, 2), vec![Row::Raw(4), Row::Raw(5)]);
    assert_eq!(prefill_raw(5, 0), vec![]);
    let rows = prefill_mixed(5, &[], false, 9, 2, 4);
    assert_eq!(rows, vec![Row::Raw(4), Row::Raw(5), Row::Comp(0)]);
    assert_eq!(static_mixed_heads8_online(5, 9, 2, 4), rows);
    // A window of 0 is no limit here.
    assert_eq!(prefill_mixed(1, &[], false, 0, 0, 4), vec![Row::Raw(0), Row::Raw(1)]);
    assert_eq!(static_mixed_heads8_online(1, 3, 0, 0), vec![Row::Raw(0), Row::Raw(1)]);
    assert_eq!(prefill_mixed(3, &[], false, 0, 3, 4), prefill_raw(3, 3));
}

#[test]
fn masks_close_compressed_rows() {
    let mut mask = vec![0u32; 16];
    mask[8 * 1 + 0] = f32::NEG_INFINITY.to_bits();
    mask[8 * 1 + 1] = (-1.0e19f32).to_bits();
    let rows = prefill_mixed(1, &mask, true, 8, 1, 1);
    assert_eq!(rows, vec![Row::Raw(1), Row::Closed(0), Row::Comp(1)]);
}

#[test]
fn decoding_reads_the_ring() {
    // Ten positions of which six are stored, in a ring of six that starts at row 4.
    let cache = RawCache { n_tokens: 1, pos0: 9, n_raw: 6, raw_cap: 6, raw_start: 4 };
    let rows = decode_mixed(cache, 0, &[], false, 5, 3, 4);
    assert_eq!(
        rows,
        vec![Row::Raw(1), Row::Raw(2), Row::Raw(3), Row::Comp(0), Row::Comp(1)]
    );
    assert_eq!(decode_mixed_heads8_online(cache, 0, 5, 3, 4), rows);
    // Without a ratio a single token sees everything that is stored.
    let all = decode_mixed(cache, 0, &[], false, 2, 3, 0);
    assert_eq!(
        all,
        vec![
            Row::Raw(4), Row::Raw(5), Row::Raw(0), Row::Raw(1), Row::Raw(2), Row::Raw(3),
            Row::Comp(0), Row::Comp(1)
        ]
    );
    // Many compressed rows, few of them visible; and as many as there is room for.
    assert_eq!(decode_mixed(cache, 0, &[], false, 1_000_000, 3, 4).len(), 5);
    let late = RawCache { n_tokens: 1, pos0: 39_999, n_raw: 128, raw_cap: 128, raw_start: 64 };
    assert_eq!(count_decode_scores(late, 0, 8000, 128, 4), (128, 8000));
    assert_eq!(decode_mixed(late, 0, &[], false, 8000, 128, 4).len(), 8128);
    // A batch: the first token does not see the second.
    let batch = RawCache { n_tokens: 2, pos0: 0, n_raw: 2, raw_cap: 8, raw_start: 0 };
    assert_eq!(decode_mixed(batch, 0, &[], false, 0, 8, 4), vec![Row::Raw(0)]);
    assert_eq!(decode_mixed(batch, 1, &[], false, 0, 8, 4), vec![Row::Raw(0), Row::Raw(1)]);
    assert_eq!(decode_mixed_heads8_online(batch, 1, 3, 8, 0), vec![Row::Raw(0), Row::Raw(1)]);
}

#[test]
fn selected_rows_are_read_in_order() {
    let cache = RawCache { n_tokens: 1, pos0: 7, n_raw: 1, raw_cap: 8, raw_start: 7 };
    let topk = [1, 0, -1, 5];
    let rows = indexed_mixed(cache, 0, &topk, 2, 4, 8, 4);
    assert_eq!(rows, vec![Row::Raw(7), Row::Comp(1), Row::Comp(0)]);
    assert_eq!(indexed_mixed_heads8_online(cache, 0, &topk, 2, 4, 8, 4), rows);
    // Entries that name no visible row are passed over.
    let gaps = [-1, 3, 0, 9];
    assert_eq!(
        indexed_mixed(cache, 0, &gaps, 4, 4, 8, 0),
        vec![Row::Raw(7), Row::Comp(3), Row::Comp(0)]
    );
}

#[test]
fn full_selections_read_what_decoding_reads() {
    let cache = RawCache { n_tokens: 1, pos0: 18, n_raw: 3, raw_cap: 8, raw_start: 0 };
    // Four rows are visible; the other entries name none of them.
    let topk = [2, 7, 0, -1, 3, 4, 1];
    let mut selected = indexed_mixed(cache, 0, &topk, 9, 7, 8, 4);
    let mut all = decode_mixed(cache, 0, &[], false, 9, 8, 4);
    let order = |r: &Row| match *r {
        Row::Raw(x) => (0, x),
        Row::Comp(x) => (1, x),
        Row::Closed(x) => (2, x),
    };
    selected.sort_by_key(order);
    all.sort_by_key(order);
    assert_eq!(selected, all);
    // A window that is longer than the prompt so far is no limit.
    assert_eq!(prefill_raw(2, 1000), vec![Row::Raw(0), Row::Raw(1), Row::Raw(2)]);
}

#[test]
fn stages_hold_four_rows() {
    let raw: Vec<u32> = (0..1024).collect();
    let comp: Vec<u32> = (5000..5512).collect();
    let rows = [Row::Raw(1), Row::Comp(0), Row::Raw(0), Row::Raw(1), Row::Comp(0)];
    let tile = load_stage(&raw, &comp, &rows, 0);
    assert_eq!(tile.len(), 4 * 512);
    assert_eq!(tile[3], 515);
    assert_eq!(tile[512 + 3], 5003);
    assert_eq!(tile[1024], 0);
    let last = load_stage(&raw, &comp, &rows, 4);
    assert_eq!(last, comp);
    let mut seen = vec![false; 512];
    for lane in 0..32 {
        for g in 0..4 {
            for j in 0..4 {
                let d = lane_element(lane, g, j);
                assert!(!seen[d]);
                seen[d] = true;
            }
        }
    }
}

#[test]
fn softmax_closes_keys_outside_the_window() {
    let scores = bits(&[1.0, 2.0, 3.0, 4.0]);
    let masked = prefill_raw_softmax(&scores, 2, 2);
    assert_eq!(masked, vec![NEG_INF, scores[1], scores[2], NEG_INF]);
    assert_eq!(prefill_raw_softmax(&scores, 2, 0)[0], scores[0]);
    let mut mask = vec![0u32; 8];
    mask[4] = NEG_INF;
    let uses = prefill_mixed_softmax(2, &mask, true, 4, 2, 2, 1, 7);
    assert_eq!(
        uses,
        vec![
            KeyUse::Drop, KeyUse::Keep, KeyUse::Keep, KeyUse::Drop, KeyUse::Drop, KeyUse::Add(5),
            KeyUse::Drop
        ]
    );
    assert_eq!(max_score((0.5f32).to_bits(), &masked), 3.0f32.to_bits());
    assert_eq!(max_score(9.0f32.to_bits(), &bits(&[f32::NAN, 1.0])), 9.0f32.to_bits());
}

// ── Selection of rows ───────────────────────────────────────────────────────

#[test]
fn sorting_networks_sort() {
    let mut v: Vec<Rising> = [5, -1, 9, 5, 0, 3, -8, 7].iter().map(|&x| Rising(x)).collect();
    bitonic_sort(&mut v);
    let out: Vec<i32> = v.iter().map(|r| r.0).collect();
    assert_eq!(out, vec![-8, -1, 0, 3, 5, 5, 7, 9]);
    assert_eq!(next_power_of_two(1), 1);
    assert_eq!(next_power_of_two(513), 1024);
}

#[test]
fn all_selections_choose_the_same_rows() {
    let n = 64usize;
    let mut scores = Vec::new();
    for i in 0..n {
        scores.push((((i * 37) % 50) as f32 * 0.5).to_bits());
    }
    let k = 8usize;
    let mut by_insertion = vec![0u32; k];
    indexer_topk(0, &scores, &mut by_insertion, n, k);
    let mut by_sorting = vec![0u32; k];
    indexer_topk_bitonic(0, &scores, &mut by_sorting, n, k, 64);
    assert_eq!(by_insertion, by_sorting);
    let mut small = vec![0u32; k];
    indexer_topk_bitonic_u16(0, &scores, &mut small, n, k, 64);
    assert_eq!(small, by_sorting);
    // In four chunks of sixteen, then merged.
    let mut candidates = vec![0u32; 4 * k];
    for c in 0..4 {
        indexer_topk_chunk_bitonic(0, c, &scores, &mut candidates, n, k, 4 * k, 16);
    }
    let mut merged = vec![0u32; k];
    indexer_topk_merge_bitonic(0, &scores, &candidates, &mut merged, n, k, 4 * k, 4 * k, 32);
    assert_eq!(merged, by_sorting);
    // In a tree: two groups of two sets, then the rest.
    let mut level = vec![0u32; 2 * k];
    for g in 0..2 {
        indexer_topk_tree_merge_bitonic(
            0, g, &scores, &candidates, &mut level, n, k, 4, 2, 4 * k, 2 * k, 16,
        );
    }
    let mut top = vec![0u32; k];
    indexer_topk_merge_bitonic(0, &scores, &level, &mut top, n, k, 2 * k, 2 * k, 16);
    assert_eq!(top, by_sorting);
    // Of equal scores the lower row comes first.
    assert!(topk_score_better(scores[0], 3, scores[50], 50));
}

#[test]
fn selections_of_the_second_token_use_its_scores() {
    let scores = bits(&[9.0, 8.0, 7.0, 1.0, 2.0, 3.0]);
    let mut selected = vec![77u32; 4];
    indexer_topk(1, &scores, &mut selected, 3, 2);
    assert_eq!(selected, vec![77, 77, 2, 1]);
    let mut few = vec![77u32; 3];
    indexer_topk(0, &scores, &mut few, 1, 3);
    assert_eq!(few, vec![0, 0, 0]);
}

#[test]
fn rows_that_have_not_come_are_masked() {
    assert!(!is_masked(0, 3, 4, true));
    assert!(is_masked(1, 3, 4, true));
    assert!(!is_masked(1, 3, 4, false));
}

#[test]
fn chosen_rows_are_open_in_the_mask() {
    let mask = topk_mask(&[1, 3, 0, 0], 4, 2, 2);
    assert_eq!(mask, vec![NEG_INF, 0, NEG_INF, 0, 0, NEG_INF, NEG_INF, NEG_INF]);
}

#[test]
fn selected_rows_sort_upwards() {
    let src: Vec<i32> = (0..512).map(|i| (i * 211) % 512).collect();
    let mut dst = vec![0i32; 512];
    indexed_topk_sort_512_asc(0, &src, &mut dst);
    assert_eq!(dst, (0..512).collect::<Vec<i32>>());
}

// ── Compressed rows ─────────────────────────────────────────────────────────

#[test]
fn windows_overlap_where_four_tokens_make_a_row() {
    assert_eq!(state_width(3, 4), 6);
    assert_eq!(state_width(3, 128), 3);
    assert_eq!(compressor_store(3, 4, 4, 1), Place { src: 6, dst: 5 * 6, ape: 6 });
    assert_eq!(compressor_store(3, 128, 130, 0), Place { src: 0, dst: 2 * 3, ape: 2 * 3 });
    assert_eq!(compressor_set_rows(6, 4, 2, 1, 4, 1), Place { src: 12, dst: 30, ape: 0 });
}

#[test]
fn pooling_a_state_reads_what_pooling_the_prompt_reads() {
    let head_dim = 2usize;
    let width = state_width(head_dim, 4);
    // Eight tokens: two windows.
    let kv: Vec<u32> = (0..(8 * width) as u32).map(|i| 100 + i).collect();
    let mut state = vec![0u32; 8 * width];
    for t in 0..4 {
        store_row(&kv, &mut state, compressor_store(head_dim, 4, 0, t), width);
    }
    compressor_shift_ratio4(&mut state, width);
    for t in 4..8 {
        store_row(&kv, &mut state, compressor_store(head_dim, 4, 0, t), width);
    }
    for d in 0..head_dim {
        let places = compressor_update_pool(head_dim, 4, d);
        let candidates = compressor_prefill_pool(head_dim, 4, 0, 1, false, d);
        assert_eq!(places.len(), 8);
        assert_eq!(candidates.len(), 8);
        for i in 0..8 {
            match candidates[i] {
                Candidate::Token { src, .. } => assert_eq!(kv[src], state[places[i]]),
                Candidate::State(_) => panic!("no state was kept"),
            }
        }
    }
    // The first window has none before it, unless one was kept.
    assert_eq!(compressor_prefill_pool(head_dim, 4, 0, 0, false, 1).len(), 4);
    let kept = compressor_prefill_pool(head_dim, 4, 0, 0, true, 1);
    assert_eq!(kept[1], Candidate::State(width + 1));
    assert_eq!(kept[4], Candidate::Token { src: head_dim + 1, ape: head_dim + 1 });
    assert_eq!(compressor_update_pool(2, 3, 1), vec![1, 3, 5]);
    assert_eq!(
        compressor_prefill_pool(2, 3, 4, 1, false, 0),
        vec![
            Candidate::Token { src: 6, ape: 2 },
            Candidate::Token { src: 8, ape: 4 },
            Candidate::Token { src: 10, ape: 0 },
        ]
    );
}

#[test]
fn scalars_are_read_by_type() {
    let mut data = vec![0u8; 4];
    data.extend_from_slice(&[0x00, 0x3C, 0x00, 0xC0]);
    assert_eq!(model_scalar_hc(&data, 4, 1, 1), (-2.0f32).to_bits());
    let mut wide = vec![0u8; 4];
    wide.extend_from_slice(&0.75f32.to_le_bytes());
    assert_eq!(model_scalar_hc(&wide, 0, 0, 1), 0.75f32.to_bits());
}

#[test]
fn streams_and_splits_are_laid_out() {
    assert_eq!(stream_offset(1, 2, 3, 4, 10), 63);
    assert_eq!(post_offset(1, 2, 4, 24), 30);
    assert_eq!(comb_offset(1, 2, 3, 4, 24), 24 + 8 + 2 + 12);
}

#[test]
fn rotation_turns_pairs_of_the_tail() {
    let p = rope_tail(5, 2, 3, 8, 4);
    // Two pairs to a head: thread 5 has pair 1 of row 2, head 2 of token 0.
    assert_eq!(p.t, 0);
    assert_eq!(p.pair, 1);
    assert_eq!(p.at, 2 * 8 + 4 + 2);
    assert_eq!(rope_tail(6, 2, 3, 8, 4).t, 1);
}

// ── Experts ─────────────────────────────────────────────────────────────────

fn some_scores() -> Vec<u32> {
    (0..256).map(|i| (((i * 91) % 256 / 2) as f32).to_bits()).collect()
}

#[test]
fn both_routers_choose_the_best_experts() {
    let scores = some_scores();
    let by_insertion = select_experts(&scores);
    let by_rounds = select_experts_in_rounds(&scores);
    for i in 0..6 {
        assert_eq!(by_insertion[i] as u32, by_rounds[i]);
    }
    for i in 1..6 {
        let (a, b) = (by_rounds[i - 1], by_rounds[i]);
        assert!(router_score_better(scores[a as usize], a, scores[b as usize], b));
    }
    let probs: Vec<u32> = (1000..1256).collect();
    let a = router_select(0, &probs, &scores, &[], &[], 0, 0, false);
    let b = router_select_warp_topk(0, &probs, &scores, &[], &[], 0, 0, false);
    assert_eq!(a.selected, by_insertion);
    assert_eq!(a.selected, b.selected);
    assert_eq!(a.weights, b.weights);
    let c = router_select_parallel(0, &probs, &scores, &[], &[], 0, 0, false);
    assert_eq!((&a.selected, &a.weights), (&c.selected, &c.weights));
    assert_eq!(a.weights[0], 1000 + a.selected[0] as u32);
}

#[test]
fn experts_without_a_score_are_not_inserted() {
    let mut scores = vec![NEG_INF; 256];
    scores[9] = 1.0f32.to_bits();
    scores[3] = f32::NAN.to_bits();
    assert_eq!(select_experts(&scores), vec![9, -1, -1, -1, -1, -1]);
    let nan = vec![f32::NAN.to_bits(); 256];
    assert_eq!(select_experts_in_rounds(&nan), vec![u32::MAX; 6]);
    let probs = vec![5u32; 256];
    let s = router_select_warp_topk(0, &probs, &nan, &[], &[], 0, 0, false);
    assert_eq!(s.selected, vec![-1; 6]);
    assert_eq!(s.weights, vec![0; 6]);
}

#[test]
fn token_tables_name_experts() {
    let hash: Vec<i32> = (0..12).collect();
    let probs: Vec<u32> = (0..256).collect();
    let scores = some_scores();
    let r = router_select(1, &probs, &scores, &hash, &[0, 1], 0, 2, true);
    assert_eq!(r.selected, vec![6, 7, 8, 9, 10, 11]);
    assert_eq!(r.weights, vec![6, 7, 8, 9, 10, 11]);
    // Without a list the token given counts; one without a row reads row 0.
    assert_eq!(router_select(0, &probs, &scores, &hash, &[], 1, 2, true).selected[0], 6);
    assert_eq!(router_select(0, &probs, &scores, &hash, &[], 2, 2, true).selected[0], 0);
    assert_eq!(router_select(0, &probs, &scores, &hash, &[], -1, 2, true).selected[0], 0);
    // In a table that has no rows of its own every token reads the first.
    assert_eq!(router_select(0, &probs, &scores, &hash, &[], 1, 0, true).selected[0], 0);
    // Without the table no list of tokens is read.
    let plain = router_select(9, &probs, &scores, &[], &[1], 0, 0, false);
    assert_eq!(plain.selected, select_experts(&scores));
}

#[test]
fn pairs_are_sorted_by_expert() {
    let selected = [3, 0, 3, -1, 200, 0];
    let mut counts = vec![0u32; 256];
    moe_count_sorted_pairs(&selected, &mut counts);
    assert_eq!(counts[0], 3);
    assert_eq!(counts[3], 2);
    assert_eq!(counts[200], 1);
    let (offsets, mut cursors) = moe_prefix_sorted_pairs(&counts);
    assert_eq!(offsets.len(), 257);
    assert_eq!(offsets[3], 3);
    assert_eq!(offsets[200], 5);
    assert_eq!(offsets[256], 6);
    let mut sorted = vec![99u32; 6];
    moe_scatter_sorted_pairs(&selected, &mut cursors, &mut sorted);
    assert_eq!(sorted, vec![1, 3, 5, 0, 2, 4]);
    assert_eq!(cursors[0], 3);
    assert_eq!(expert_index(-1), 0);
    assert_eq!(pair_parts(13, 6), (2, 1));
}

#[test]
fn tiles_cover_the_pairs() {
    let mut counts = vec![0u32; 256];
    counts[1] = 5;
    counts[4] = 4;
    let (offsets, total) = moe_build_expert_tile_offsets(&counts, 4);
    assert_eq!(total, 3);
    assert_eq!(offsets[1], 0);
    assert_eq!(offsets[2], 2);
    assert_eq!(offsets[256], 3);
    let (experts, starts) = moe_build_expert_tiles(&counts, 4);
    assert_eq!(experts, vec![1, 1, 4]);
    assert_eq!(starts, vec![0, 4, 0]);
}

#[test]
fn rows_of_experts_are_covered_once() {
    let mut seen = vec![0u32; 256];
    for block in 0..2 {
        for lane in 0..32 {
            for rr in 0..4 {
                seen[gate_row(block, lane * 8, rr)] += 1;
            }
        }
    }
    assert!(seen.iter().all(|&n| n == 1));
    assert_eq!(down_row(3, 17), 98);
}

#[test]
fn expert_rows_are_multiplied_block_by_block() {
    // Two experts of two rows of one block. All weights are 8; the factor of expert 1, row 1 is 3.
    let mut w = vec![0u8; 4 * 66];
    for b in 0..4 {
        w[b * 66 + 1] = 0x3C;
    }
    for g in 0..8 {
        w[3 * 66 + 2 + g * 8 + 7] = 0x10;
    }
    let mut xq = q8k_block(1.0f32.to_bits(), &[1i8; 256]);
    xq.extend(q8k_block(0.5f32.to_bits(), &[2i8; 256]));
    // Two tokens with two places each.
    let selected = [0, 1, -1, 1];
    let (gate, up) = moe_gate_up_mid_qwarp32(&w, &w, &xq, &selected, 3, 1, 132, 66, 1, 2);
    assert_eq!(gate, up);
    assert_eq!(gate[0].sum, 3 * 4096);
    assert_eq!(gate[0].yd, 0.5f32.to_bits());
    let (gate, _) = moe_gate_up_mid_qwarp32(&w, &w, &xq, &selected, 2, 1, 132, 66, 1, 2);
    assert_eq!(gate[0].sum, 4096);
    let sorted = [0u32, 2, 1, 3];
    let (gate, _) =
        moe_gate_up_mid_sorted_qwarp32(&w, &w, &xq, &sorted, &selected, 2, 1, 132, 66, 1, 2);
    assert_eq!(gate[0].sum, 3 * 2048);
}

#[test]
fn expert_outputs_are_multiplied_block_by_block() {
    // Two experts of one row of one block; the second has twice the factor.
    let mut w = vec![0u8; 2 * 84];
    for e in 0..2 {
        w[e * 84..e * 84 + 16].fill(0x10 + 1 + e as u8);
        w[e * 84 + 16..e * 84 + 80].fill(0x55);
    }
    let mut midq = Vec::new();
    for slot in 0..6 {
        midq.extend(q8k_block(1.0f32.to_bits(), &[slot as i8; 256]));
    }
    let selected = [0, 1, 0, -1, 1, 1];
    let one = moe_down_qwarp32(&w, &midq, &selected, 4, 0, 84, 84, 1);
    assert_eq!(one[0].isum, 2 * 4 * 256);
    assert_eq!(one[0].summs, 4 * 256);
    let all = moe_down_sum6_qwarp32(&w, &midq, &selected, 0, 84, 84, 1);
    let sums: Vec<i32> = all.iter().map(|t| t[0].isum / 256).collect();
    assert_eq!(sums, vec![0, 2, 2, 3, 8, 10]);
    let sorted = [0u32, 2, 3, 1, 4, 5];
    let third = moe_down_sorted_qwarp32(&w, &midq, &sorted, &selected, 3, 0, 84, 84, 1);
    assert_eq!(third[0].isum, 2 * 256);
    // Number 1 of token 2, of three numbers and two places.
    assert_eq!(moe_sum(7, 3, 2, 4), vec![13, 16]);
}

// ── Quantisation ────────────────────────────────────────────────────────────

#[test]
fn rounded_numbers_are_stored_in_range() {
    assert_eq!(clamp_i8(200), 127);
    assert_eq!(clamp_i8(-200), -128);
    assert_eq!(clamp_i8(-5), -5);
    let mut xq = vec![9i8; 96];
    quantize_q8_0(&mut xq, 0, 1, 3, &[1, 300, -300]);
    assert_eq!(&xq[30..38], &[9, 9, 1, 127, -128, 0, 0, 0]);
    assert_eq!(&xq[62..66], &[0, 0, 9, 9]);
    let blk = q8k_quantize(7, &[1000i32; 256]);
    assert_eq!(blk, q8k_block(7, &[127i8; 256]));
}

/// Quantises one block: the codes, and their scale.
fn quantize_one_block(input: &[f32]) -> (Vec<i8>, f32) {
    let x = bits(input);
    let d = f32::from_bits(block_peak(&x, 0, input.len(), 32, false).abs) / 127.0;
    let id = if d != 0.0 { 1.0 / d } else { 0.0 };
    let rounded: Vec<i32> = input
        .iter()
        .map(|v| if v * id >= 0.0 { (v * id + 0.5) as i32 } else { (v * id - 0.5) as i32 })
        .collect();
    let mut xq = vec![0i8; 32];
    quantize_q8_0(&mut xq, 0, 0, 1, &rounded);
    (xq, d)
}

#[test]
fn quantize_q8_0_all_ones_roundtrip() {
    let (qs, scale) = quantize_one_block(&[1.0f32; 32]);
    for (i, &q) in qs.iter().enumerate() {
        assert_eq!(q, 127i8, "qs[{i}] should be 127, got {q}");
    }
    let expected_scale = 1.0f32 / 127.0f32;
    assert!((scale - expected_scale).abs() < 1e-6);
}

#[test]
fn quantize_q8_0_dequantizes_correctly() {
    let input: Vec<f32> = (0..32).map(|i| (i as f32 - 16.0) * 0.1).collect();
    let (qs, scale) = quantize_one_block(&input);
    let max_abs = input.iter().map(|x| x.abs()).fold(0.0f32, f32::max);
    let expected_scale = max_abs / 127.0;
    for (i, (&q, &orig)) in qs.iter().zip(input.iter()).enumerate() {
        let reconstructed = q as f32 * scale;
        let err = (reconstructed - orig).abs();
        assert!(
            err < expected_scale * 1.5,
            "element {i}: orig={orig:.4} reconstructed={reconstructed:.4} err={err:.4}"
        );
    }
}

#[test]
fn rows_are_divided_among_threads() {
    let mut next = 0usize;
    for tid in 0..32 {
        let (k0, k1) = ordered_chunk(100, tid);
        if k0 < k1 {
            assert_eq!(k0, next);
            next = k1;
        }
    }
    assert_eq!(next, 100);
    assert_eq!(dot_i8(&[1, 255, 3], 0, &[4, 5, -6], 0, 3), 4 - 5 - 18);
}

#[test]
fn weights_are_scaled_exactly() {
    let scales = [0x3C00u16, 0xBC00, 0x2E66, 0x7BFF, 0x0400, 0x0000, 0x8000, 0x7C00, 0x7E00];
    let codes = [0i8, 1, -1, 3, -77, 100, 127, -128];
    for scale in scales {
        let s = f32::from_bits(f16_bits_to_f32(scale));
        for (j, q) in codes.iter().enumerate() {
            // Two rows of one block; the weight stands in the second.
            let mut w = vec![0u8; 68];
            w[34] = scale as u8;
            w[35] = (scale >> 8) as u8;
            w[36 + j] = *q as u8;
            let want = s * *q as f32;
            let r = f32::from_bits(dequant_q8_0_to_f32(&w, 32 + j as u64, 32, 1));
            assert!(r.to_bits() == want.to_bits() || (r.is_nan() && want.is_nan()));
            if !want.is_nan() {
                let h = dequant_q8_0_to_f16(&w, 32 + j as u64, 32, 1);
                assert_eq!(h, f32_to_f16_bits(want.to_bits()));
            }
        }
    }
}

// ── Streams and scores ──────────────────────────────────────────────────────

#[test]
fn sums_over_streams_read_every_stream() {
    // Number 2 of token 1, of five numbers and two streams.
    let terms = hc_weighted_sum(7, 5, 2, 3, 8);
    assert_eq!(terms, vec![Product { a: 12, b: 8 }, Product { a: 17, b: 9 }]);
    // Number 3 of stream 1 of token 1.
    let e = hc_expand(18, 5, 2, 2, 8);
    assert_eq!((e.block, e.post), (8, 11));
    assert_eq!(e.mixes, vec![Product { a: 13, b: 13 }, Product { a: 15, b: 18 }]);
}

#[test]
fn projections_expand_into_every_stream() {
    let mut w = vec![0u8; 3 * 34];
    w[34..36].copy_from_slice(&[0x00, 0x3C]);
    w[36..68].fill(2);
    let xq = vec![3i8; 32];
    let (terms, streams) = matmul_q8_0_hc_expand_preq_warp8(&w, &xq, 32, 1, 1, 5, 2);
    assert_eq!(terms.len(), 1);
    assert_eq!(terms[0].dot, 6 * 32);
    for (dst, e) in streams.iter().enumerate() {
        let plain = hc_expand(dst * 5 + 1, 5, 2, 1, 8);
        assert_eq!((e.block, e.post, &e.mixes), (plain.block, plain.post, &plain.mixes));
    }
    assert_eq!(streams.len(), 2);
}

#[test]
fn scores_are_made_head_by_head() {
    let heads = indexer_scores(3, 1, 15, 2, 4, 4, true).unwrap();
    assert_eq!(
        heads,
        vec![HeadScore { q: 8, k: 12, weight: 2 }, HeadScore { q: 12, k: 12, weight: 3 }]
    );
    assert_eq!(indexer_scores(4, 1, 15, 2, 4, 4, true), None);
    assert!(indexer_scores(4, 1, 15, 2, 4, 4, false).is_some());
    assert_eq!(
        indexer_score_one_direct(2, 11, 4, true),
        indexer_scores(2, 0, 11, 64, 128, 4, true)
    );
    assert_eq!(indexer_score_one_direct(3, 11, 4, true), None);
}

#[test]
fn threads_find_the_highest_value() {
    let mut v = vec![-2.5f32; 32];
    v[21] = 7.25;
    v[22] = -9.0;
    assert_eq!(attn_warp_max(&bits(&v)), 7.25f32.to_bits());
}
