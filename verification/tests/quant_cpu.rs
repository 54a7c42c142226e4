//! Products of quantised blocks, and the formulas of the router.
use deepseek_engine::kernels::matmul::{
    matmul_q8_0_grouped_preq_warp8, matmul_q8_0_preq_batch_warp8, matmul_q8_0_preq_warp8, Term,
};
use deepseek_engine::kernels::quantize::{
    dot_iq2_dp8, dot_iq2_xxs_q8k, dot_q2_16, dot_q2k_q8k, q8_0_block_len, q8_0_weight, q8k_block,
    read_f32_le, read_i16_le, read_u16_le, unpack_iq2_signs, IQ2_SIGNS, IQ2_XXS_GRID,
};

const F16_ONE: u16 = 0x3C00; // f16 bits for 1.0

/// The product of a row from what its blocks add.
fn accumulate(terms: &[Term], xscale: &[f32]) -> f32 {
    let mut acc = 0.0f32;
    for t in terms {
        acc += f32::from_bits(t.scale) * xscale[t.xscale_at] * t.dot as f32;
    }
    acc
}

fn q8_0_matvec_row(w: &[u8], xq: &[i8], xscale: &[f32], n_blocks: usize) -> f32 {
    let terms = matmul_q8_0_preq_warp8(w, xq, (n_blocks * 32) as u64, n_blocks as u64, 0);
    accumulate(&terms, xscale)
}

fn iq2_xxs_q8k_dot(iq2_blk: &[u8], q8k_blk: &[u8]) -> f32 {
    let d = dot_iq2_xxs_q8k(iq2_blk, q8k_blk, &IQ2_XXS_GRID, &IQ2_SIGNS);
    0.125 * f32::from_bits(d.xd) * f32::from_bits(d.yd) * d.sum as f32
}

fn q2k_q8k_dot(q2k_blk: &[u8], q8k_blk: &[u8]) -> f32 {
    let d = dot_q2k_q8k(q2k_blk, q8k_blk);
    let dall = f32::from_bits(d.yd) * f32::from_bits(d.xd);
    let dmin = f32::from_bits(d.yd) * f32::from_bits(d.xdmin);
    dall * d.isum as f32 - dmin * d.summs as f32
}

// ── Q8_0 ─────────────────────────────────────────────────────────────────────

#[test]
fn q8_0_zero_weights_gives_zero() {
    // Any input × zero-weight block = 0.
    let w = {
        let mut b = vec![0u8; 34];
        b[0] = 0x00;
        b[1] = 0x3C; // scale = f16 1.0
        // qs all zero (already zero)
        b
    };
    let xq = vec![1i8; 32];
    let xscale = vec![1.0f32];
    assert_eq!(q8_0_matvec_row(&w, &xq, &xscale, 1), 0.0);
}

#[test]
fn q8_0_zero_input_gives_zero() {
    // Zero input × any weights = 0.
    let w = {
        let mut b = vec![1u8; 34]; // qs all 1
        b[0] = 0x00;
        b[1] = 0x3C; // scale = f16 1.0
        b
    };
    let xq = vec![0i8; 32];
    let xscale = vec![1.0f32];
    assert_eq!(q8_0_matvec_row(&w, &xq, &xscale, 1), 0.0);
}

#[test]
fn q8_0_all_ones_single_block() {
    // w_scale=1, w_qs=[1]*32, x_scale=1, xq=[1]*32 → dot = 32
    let w = {
        let mut b = vec![0u8; 34];
        b[0] = 0x00;
        b[1] = 0x3C; // f16 1.0
        for i in 2..34 {
            b[i] = 1u8;
        } // qs = 1 (as u8, but treated as i8 = 1)
        b
    };
    let xq = vec![1i8; 32];
    let xscale = vec![1.0f32];
    let result = q8_0_matvec_row(&w, &xq, &xscale, 1);
    assert!((result - 32.0).abs() < 1e-4, "expected 32.0, got {result}");
}

#[test]
fn q8_0_two_blocks_accumulate() {
    // Two blocks, each contributing 16.0 → total 32.0
    let mut w = vec![0u8; 68]; // 2 × 34
    // block 0: scale=0.5, qs=[1]*32
    let half_f16: u16 = 0x3800; // f16 0.5
    w[0] = (half_f16 & 0xff) as u8;
    w[1] = (half_f16 >> 8) as u8;
    for i in 2..34 {
        w[i] = 1u8;
    }
    // block 1: scale=0.5, qs=[1]*32
    w[34] = (half_f16 & 0xff) as u8;
    w[35] = (half_f16 >> 8) as u8;
    for i in 36..68 {
        w[i] = 1u8;
    }
    let xq = vec![1i8; 64];
    let xscale = vec![1.0f32, 1.0f32];
    let result = q8_0_matvec_row(&w, &xq, &xscale, 2);
    // 0.5 * 1.0 * 32 + 0.5 * 1.0 * 32 = 32.0
    assert!((result - 32.0).abs() < 1e-4, "expected 32.0, got {result}");
}

#[test]
fn q8_0_negative_weights() {
    // Negative qs values produce negative dot products.
    let w = {
        let mut b = vec![0u8; 34];
        b[0] = 0x00;
        b[1] = 0x3C; // f16 1.0
        for i in 2..34 {
            b[i] = 0xFFu8;
        } // i8 -1
        b
    };
    let xq = vec![1i8; 32];
    let xscale = vec![1.0f32];
    let result = q8_0_matvec_row(&w, &xq, &xscale, 1);
    assert!(
        (result - (-32.0)).abs() < 1e-4,
        "expected -32.0, got {result}"
    );
}

/// `rows` rows of one block: the scale as 16 bits, then 32 times `q`.
fn q8_0_rows(rows: usize, scale: u16, q: i8) -> Vec<u8> {
    let mut w = Vec::new();
    for _ in 0..rows {
        w.extend_from_slice(&scale.to_le_bytes());
        w.extend(vec![q as u8; 32]);
    }
    w
}

#[test]
fn matmul_q8_0_all_ones_single_block() {
    let out_dim = 8usize;
    let w = q8_0_rows(out_dim, F16_ONE, 1);
    let xq = vec![1i8; 32];
    for i in 0..out_dim {
        let v = accumulate(&matmul_q8_0_preq_warp8(&w, &xq, 32, 1, i as u64), &[1.0]);
        assert!((v - 32.0).abs() < 1e-3, "matmul_q8_0 row {i}: expected 32.0, got {v}");
    }
}

#[test]
fn matmul_q8_0_negative_weights_produce_negative_output() {
    let out_dim = 8usize;
    let w = q8_0_rows(out_dim, F16_ONE, -1);
    let xq = vec![1i8; 32];
    for i in 0..out_dim {
        let v = accumulate(&matmul_q8_0_preq_warp8(&w, &xq, 32, 1, i as u64), &[1.0]);
        assert!((v - (-32.0)).abs() < 1e-3, "row {i}: expected -32.0, got {v}");
    }
}

#[test]
fn matmul_q8_0_scale_applied_correctly() {
    let out_dim = 8usize;
    let w = q8_0_rows(out_dim, 0x3800, 1);
    let xq = vec![1i8; 32];
    for i in 0..out_dim {
        let v = accumulate(&matmul_q8_0_preq_warp8(&w, &xq, 32, 1, i as u64), &[1.0]);
        assert!((v - 16.0).abs() < 1e-3, "row {i}: expected 16.0, got {v}");
    }
}

#[test]
fn rows_read_the_inputs_of_their_token_or_group() {
    let w = q8_0_rows(4, F16_ONE, 1);
    let mut xq = vec![1i8; 32];
    xq.extend(vec![2i8; 32]);
    let t = matmul_q8_0_preq_batch_warp8(&w, &xq, 32, 1, 3, 1);
    assert_eq!(t, vec![Term { scale: 1.0f32.to_bits(), xscale_at: 1, dot: 64 }]);
    let t = matmul_q8_0_grouped_preq_warp8(&w, &xq, 32, 2, 1, 1);
    assert_eq!(t[0].dot, 32);
    let t = matmul_q8_0_grouped_preq_warp8(&w, &xq, 32, 2, 1, 2);
    assert_eq!(t[0].dot, 64);
    assert_eq!(t[0].xscale_at, 1);
}

#[test]
fn last_blocks_may_be_short() {
    let w = q8_0_rows(2, F16_ONE, 1);
    let xq = vec![1i8; 64];
    // One row of 40 elements in two blocks.
    let t = matmul_q8_0_preq_warp8(&w, &xq, 40, 2, 0);
    assert_eq!(t[0].dot, 32);
    assert_eq!(t[1].dot, 8);
    assert_eq!(q8_0_block_len(40, 1), 8);
    assert_eq!(q8_0_block_len(64, 1), 32);
}

#[test]
fn single_weights_are_found_in_their_block() {
    let mut w = q8_0_rows(4, F16_ONE, 0);
    // Row 1 of two blocks, element 33: block 1, place 1.
    w[3 * 34 + 2 + 1] = 0x80;
    assert_eq!(q8_0_weight(&w, 64 + 33, 64, 2), (1.0f32.to_bits(), -128));
    assert_eq!(q8_0_weight(&w, 64 + 32, 64, 2), (1.0f32.to_bits(), 0));
}

// ── IQ2_XXS ──────────────────────────────────────────────────────────────────

/// Build a minimal IQ2_XXS block (66 bytes).
/// All 8 groups use grid[grid_idx] and sign[sign_idx] with ls factor.
fn make_iq2_blk(d_bits: u16, grid_idx: u8, sign_idx: u8, ls_val: u32) -> Vec<u8> {
    // ls_val: desired ls (1..=31). aux1 >> 28 = (ls_val - 1) / 2
    let aux1_top = ((ls_val - 1) / 2) << 28;
    // sign_idx fits in 7 bits; pack 4 sign indices into aux1 bits [0,7,14,21]
    let aux1 = aux1_top
        | (sign_idx as u32)
        | ((sign_idx as u32) << 7)
        | ((sign_idx as u32) << 14)
        | ((sign_idx as u32) << 21);
    let mut blk = vec![0u8; 66];
    blk[0] = (d_bits & 0xff) as u8;
    blk[1] = (d_bits >> 8) as u8;
    for ib32 in 0..8usize {
        let off = 2 + ib32 * 8;
        // aux0 = all four grid indices set to grid_idx
        let aux0 = (grid_idx as u32)
            | ((grid_idx as u32) << 8)
            | ((grid_idx as u32) << 16)
            | ((grid_idx as u32) << 24);
        let w0 = aux0 & 0xffff;
        let w1 = aux0 >> 16;
        blk[off] = (w0 & 0xff) as u8;
        blk[off + 1] = (w0 >> 8) as u8;
        blk[off + 2] = (w1 & 0xff) as u8;
        blk[off + 3] = (w1 >> 8) as u8;
        let w2 = aux1 & 0xffff;
        let w3 = aux1 >> 16;
        blk[off + 4] = (w2 & 0xff) as u8;
        blk[off + 5] = (w2 >> 8) as u8;
        blk[off + 6] = (w3 & 0xff) as u8;
        blk[off + 7] = (w3 >> 8) as u8;
    }
    blk
}

/// Build a minimal Q8_K block (292 bytes).
fn make_q8k_blk(d: f32, qs: &[i8; 256]) -> Vec<u8> {
    let mut blk = vec![0u8; 292];
    blk[..4].copy_from_slice(&d.to_le_bytes());
    for (i, &v) in qs.iter().enumerate() {
        blk[4 + i] = v as u8;
    }
    // bsums[j] = sum of qs[j*16..(j+1)*16]
    for j in 0..16 {
        let sum: i16 = (0..16).map(|k| qs[j * 16 + k] as i16).sum();
        let off = 260 + j * 2;
        blk[off] = (sum & 0xff) as u8;
        blk[off + 1] = (sum >> 8) as u8;
    }
    blk
}

#[test]
fn iq2_xxs_zero_q8k_scale_gives_zero() {
    let iq2 = make_iq2_blk(F16_ONE, 0, 0, 1);
    let q8k = make_q8k_blk(0.0, &[1i8; 256]);
    let result = iq2_xxs_q8k_dot(&iq2, &q8k);
    assert_eq!(result, 0.0);
}

#[test]
fn iq2_xxs_zero_iq2_scale_gives_zero() {
    let iq2 = make_iq2_blk(0x0000, 0, 0, 1); // f16 0.0
    let q8k = make_q8k_blk(1.0, &[1i8; 256]);
    let result = iq2_xxs_q8k_dot(&iq2, &q8k);
    assert_eq!(result, 0.0);
}

#[test]
fn iq2_xxs_grid0_sign0_ls1_all_ones_q8k() {
    // GRID[0] = 0x0808080808080808 → each byte = 8.
    // SIGNS[0] = 0 → unpack: popcount(0)=0 → sb=0 → all positive.
    // ls=1.
    // dot per 8-group: 4 × sum(8 × q8[i] for i in 0..8) = 4 × 8 × 8 = 256 (q8=1)
    // bsum over 8 groups: 8 × 256 × 1 = 2048
    // result = 0.125 × 1.0 × 1.0 × 2048 = 256.0
    let iq2 = make_iq2_blk(F16_ONE, 0, 0, 1);
    let q8k = make_q8k_blk(1.0, &[1i8; 256]);
    let result = iq2_xxs_q8k_dot(&iq2, &q8k);
    assert!(
        (result - 256.0).abs() < 0.01,
        "expected 256.0, got {result}"
    );
}

#[test]
fn iq2_xxs_ls_scales_result() {
    // Doubling ls from 1 to 3 (aux1>>28 changes from 0 to 1) should 3× the result.
    let iq2_ls1 = make_iq2_blk(F16_ONE, 0, 0, 1);
    let iq2_ls3 = make_iq2_blk(F16_ONE, 0, 0, 3);
    let q8k = make_q8k_blk(1.0, &[1i8; 256]);
    let r1 = iq2_xxs_q8k_dot(&iq2_ls1, &q8k);
    let r3 = iq2_xxs_q8k_dot(&iq2_ls3, &q8k);
    assert!(
        (r3 - 3.0 * r1).abs() < 0.01,
        "ls=3 should give 3× ls=1: {r3} vs {}",
        3.0 * r1
    );
}

#[test]
fn iq2_xxs_scale_linearity() {
    // Doubling d_q8k should double the result.
    let iq2 = make_iq2_blk(F16_ONE, 0, 0, 1);
    let q8k_1 = make_q8k_blk(1.0, &[1i8; 256]);
    let q8k_2 = make_q8k_blk(2.0, &[1i8; 256]);
    let r1 = iq2_xxs_q8k_dot(&iq2, &q8k_1);
    let r2 = iq2_xxs_q8k_dot(&iq2, &q8k_2);
    assert!(
        (r2 - 2.0 * r1).abs() < 0.01,
        "2× q8k_d should give 2× result: {r2} vs {}",
        2.0 * r1
    );
}

#[test]
fn iq2_signs_and_patterns_decide_the_weights() {
    // Pattern 1 has 43 in its lowest byte and 8 elsewhere; sign entry 1 negates bits 0 and 7.
    let iq2 = make_iq2_blk(F16_ONE, 1, 1, 5);
    let q8k = make_q8k_blk(1.0, &[1i8; 256]);
    let d = dot_iq2_xxs_q8k(&iq2, &q8k, &IQ2_XXS_GRID, &IQ2_SIGNS);
    // Eight weights: -43, six times 8, -8.
    assert_eq!(d.sum, 8 * 4 * 5 * (-43 + 48 - 8));
    assert_eq!(dot_iq2_dp8(IQ2_XXS_GRID[1], IQ2_SIGNS[1], &[1u8; 8], 0), -43 + 48 - 8);
}

#[test]
fn sign_entries_unpack_to_themselves() {
    for i in 0..128usize {
        assert_eq!(IQ2_SIGNS[i] & 127, i as u8);
        assert_eq!(IQ2_SIGNS[i].count_ones() % 2, 0);
        assert_eq!(unpack_iq2_signs(IQ2_SIGNS[i]), IQ2_SIGNS[i]);
    }
    assert_eq!(unpack_iq2_signs(1), 0x81);
    assert_eq!(unpack_iq2_signs(0x83), 0x03);
}

#[test]
fn patterns_hold_three_weights() {
    for g in IQ2_XXS_GRID {
        for k in 0..8 {
            let b = (g >> (8 * k)) & 0xFF;
            assert!(b == 8 || b == 25 || b == 43);
        }
    }
}

// ── Q2_K ─────────────────────────────────────────────────────────────────────

/// Build a Q2_K block (84 bytes) with uniform values.
fn make_q2k_blk(d: f32, dmin: f32, scale_lo: u8, scale_hi: u8, qs_byte: u8) -> Vec<u8> {
    let mut blk = vec![0u8; 84];
    // scales[0..16]: each byte encodes (hi<<4)|lo nibbles
    for i in 0..16 {
        blk[i] = (scale_hi << 4) | (scale_lo & 0xf);
    }
    // qs[0..64]
    for i in 16..80 {
        blk[i] = qs_byte;
    }
    // d at 80-81
    let d_bits = half::f16::from_f32(d).to_bits();
    blk[80] = (d_bits & 0xff) as u8;
    blk[81] = (d_bits >> 8) as u8;
    // dmin at 82-83
    let dmin_bits = half::f16::from_f32(dmin).to_bits();
    blk[82] = (dmin_bits & 0xff) as u8;
    blk[83] = (dmin_bits >> 8) as u8;
    blk
}

#[test]
fn q2k_zero_qs_gives_minus_dmin_term() {
    // Q2_K qs=0 → isum=0 → result = -dmin * summs
    // With dmin=0, result=0 regardless.
    let q2k = make_q2k_blk(1.0, 0.0, 1, 1, 0x00);
    let q8k = make_q8k_blk(1.0, &[1i8; 256]);
    let result = q2k_q8k_dot(&q2k, &q8k);
    assert!((result - 0.0).abs() < 0.01, "expected 0.0, got {result}");
}

#[test]
fn q2k_all_ones_q2_all_ones_q8k() {
    // Q2_K qs=0x55 (each 2-bit pair = 1), scale_lo=1, scale_hi=1 (dmin factor).
    // Q8_K d=1.0, all q8=1.
    // isum: 16 calls × d=1 × 16 elements × q2v=1 × q8v=1 = 256
    // summs: 16 × bsums[j]=16 × scale_hi=1 = 256; dmin×summs = dmin*256
    // With dmin=0.0: result = dall * 256 = 1.0 * 256 = 256.0
    let q2k = make_q2k_blk(1.0, 0.0, 1, 1, 0x55);
    let q8k = make_q8k_blk(1.0, &[1i8; 256]);
    let result = q2k_q8k_dot(&q2k, &q8k);
    assert!(
        (result - 256.0).abs() < 0.5,
        "expected ~256.0, got {result}"
    );
}

#[test]
fn q2k_dmin_term_subtracts() {
    // With nonzero dmin, the dmin*summs term reduces the result.
    let q2k_no_dmin = make_q2k_blk(1.0, 0.0, 1, 0, 0x55);
    let q2k_yes_dmin = make_q2k_blk(1.0, 1.0, 1, 0, 0x55);
    let q8k = make_q8k_blk(1.0, &[1i8; 256]);
    let r0 = q2k_q8k_dot(&q2k_no_dmin, &q8k);
    let r1 = q2k_q8k_dot(&q2k_yes_dmin, &q8k);
    // dmin term: yd * dmin * summs; with scale_hi=0: summs=0, so r1==r0
    assert!(
        (r0 - r1).abs() < 0.01,
        "scale_hi=0 → summs=0 → dmin has no effect"
    );
}

#[test]
fn q2k_factors_and_offsets_go_by_groups_of_sixteen() {
    let mut q2k = make_q2k_blk(1.0, 1.0, 0, 0, 0x00);
    // Group 3 of sixteen has factor 5 and offset 2; weight 48 + 4 is the number 3.
    q2k[3] = 0x25;
    // Weight 52: byte 52 % 32 of the first half, second pair of bits.
    q2k[16 + 20] = 3 << 2;
    let mut qs = [0i8; 256];
    qs[52] = -7;
    qs[49] = 100;
    let q8k = make_q8k_blk(1.0, &qs);
    let d = dot_q2k_q8k(&q2k, &q8k);
    assert_eq!(d.isum, 5 * 3 * -7);
    assert_eq!(d.summs, 2 * 93);
    let ones = [1u8; 16];
    assert_eq!(dot_q2_16(&[0b11_10_01_00u8; 16], 0, &ones, 0, 0), 0);
    assert_eq!(dot_q2_16(&[0b11_10_01_00u8; 16], 0, &ones, 0, 2), 16);
    assert_eq!(dot_q2_16(&[0b11_10_01_00u8; 16], 0, &ones, 0, 6), 48);
}

#[test]
fn activation_blocks_read_back() {
    let mut qs = [0i8; 256];
    for i in 0..256 {
        qs[i] = (i as i32 * 7 % 255 - 127) as i8;
    }
    let blk = q8k_block(0.25f32.to_bits(), &qs);
    assert_eq!(blk, make_q8k_blk(0.25, &qs));
    assert_eq!(read_f32_le(&blk, 0), 0.25f32.to_bits());
    assert_eq!(read_u16_le(&blk, 4), (qs[0] as u8) as u16 | ((qs[1] as u8) as u16) << 8);
    for j in 0..16 {
        let sum: i16 = (0..16).map(|k| qs[j * 16 + k] as i16).sum();
        assert_eq!(read_i16_le(&blk, 260 + 2 * j), sum);
    }
}

#[test]
fn weighing_group_sums_weighs_every_activation() {
    let mut qs = [0i8; 256];
    for i in 0..256 {
        qs[i] = (i as i32 % 19 - 9) as i8;
    }
    let mut q2k = make_q2k_blk(1.0, 1.0, 0, 0, 0);
    let mut want = 0i32;
    for i in 0..256 {
        let m = (i as i32 / 16) % 16;
        q2k[i / 16] = (m as u8) << 4;
        want += qs[i] as i32 * m;
    }
    assert_eq!(dot_q2k_q8k(&q2k, &q8k_block(0, &qs)).summs, want);
}

// ── Router ───────────────────────────────────────────────────────────────────

fn softplus(x: f32) -> f32 {
    if x > 20.0 {
        x
    } else if x < -20.0 {
        x.exp()
    } else {
        (1.0f32 + x.exp()).ln()
    }
}

fn router_score(logit: f32) -> f32 {
    softplus(logit).sqrt()
}

fn router_normalize(scores: &[f32]) -> Vec<f32> {
    let sum: f32 = scores.iter().sum();
    scores.iter().map(|s| s * 1.5 / sum).collect()
}

#[test]
fn softplus_positive_large_is_identity() {
    assert!((softplus(100.0) - 100.0).abs() < 0.01);
}

#[test]
fn softplus_negative_large_is_near_zero() {
    assert!(softplus(-100.0) < 1e-30);
}

#[test]
fn softplus_zero_is_ln2() {
    assert!((softplus(0.0) - 2.0f32.ln()).abs() < 1e-5);
}

#[test]
fn router_score_at_zero_is_sqrt_ln2() {
    assert!((router_score(0.0) - 2.0f32.ln().sqrt()).abs() < 1e-5);
}

#[test]
fn router_normalize_sums_to_1_5() {
    let scores = vec![1.0f32, 2.0, 0.5, 1.5, 0.8, 1.2]; // 6 experts
    let weights = router_normalize(&scores);
    let sum: f32 = weights.iter().sum();
    assert!(
        (sum - 1.5).abs() < 1e-5,
        "weights should sum to 1.5, got {sum}"
    );
}

#[test]
fn router_normalize_preserves_ratios() {
    let scores = vec![2.0f32, 1.0];
    let weights = router_normalize(&scores);
    // score[0] is 2× score[1], so weight[0] should be 2× weight[1]
    assert!((weights[0] / weights[1] - 2.0).abs() < 1e-5);
}

#[test]
fn router_score_matches_ds4_bos_top_expert() {
    // For the BOS token (pos=0) at layer 0, logit[222] ≈ 3.8282
    // and prob[222] ≈ 1.9621.
    let logit = 3.8282f32;
    let score = router_score(logit);
    assert!(
        (score - 1.9621).abs() < 0.002,
        "score={score}, expected ~1.9621"
    );
}
