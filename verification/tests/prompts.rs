//! Plans run with made-up kernels: a prompt computes what its tokens compute one by one.
use deepseek_engine::model::{
    LayerSlot, ModelWeights, TensorMeta, TensorType, Weight, N_LAYER,
};
use deepseek_engine::session::state::Session;
use deepseek_engine::session::step::{Buf, Operand, Step};
use std::collections::hash_map::DefaultHasher;
use std::collections::HashMap;
use std::hash::{Hash, Hasher};

fn tensor() -> Option<TensorMeta> {
    Some(TensorMeta { name: "t".to_string(), ty: TensorType::F16, dims: vec![1], offset: 0 })
}

/// A file with the tensors on which plans depend: compressors, indexer, router, shared expert.
fn weights() -> ModelWeights {
    let mut w = ModelWeights::new();
    for l in w.layers.iter_mut() {
        l.attn_compressor_kv = tensor();
        l.indexer_compressor_kv = tensor();
        l.indexer_attn_q_b = tensor();
        l.ffn_gate_inp = tensor();
        l.ffn_gate_shexp = tensor();
    }
    w
}

/// The rows of all buffers, each a number that stands for how it was computed.
#[derive(Clone)]
struct Machine {
    rows: HashMap<(Buf, usize), u64>,
    tokens: Vec<i32>,
}

fn is_chunk(b: Buf) -> bool {
    matches!(
        b,
        Buf::BHc
            | Buf::BHcNext
            | Buf::BFlatHc
            | Buf::BHcMix
            | Buf::BHcSplit
            | Buf::BAttnCur
            | Buf::BAttnNorm
            | Buf::BXqI8
            | Buf::BXscale
            | Buf::BQr
            | Buf::BQrNorm
            | Buf::BQ
            | Buf::BKvRaw
            | Buf::BKv
            | Buf::BHeads
    )
}

fn mix(kernel: &str, number: usize, args: &[u64]) -> u64 {
    let mut h = DefaultHasher::new();
    (kernel, number, args).hash(&mut h);
    h.finish()
}

fn weight(w: Weight) -> String {
    format!("{w:?}")
}

impl Machine {
    fn new() -> Self {
        Machine { rows: HashMap::new(), tokens: Vec::new() }
    }

    fn get(&self, b: Buf, r: usize) -> u64 {
        let r = if is_chunk(b) { r } else { 0 };
        self.rows.get(&(b, r)).copied().unwrap_or(0)
    }

    /// Row by row for chunks, once otherwise. `name` gets the distance from the first row.
    fn each(&mut self, n: usize, reads: &[Buf], writes: &[Buf], name: impl Fn(usize) -> String) {
        let lines = if writes.iter().any(|&b| is_chunk(b)) { n } else { 1 };
        for r in 0..lines {
            let args: Vec<u64> = reads.iter().map(|&b| self.get(b, r)).collect();
            let name = name(r);
            for (j, &b) in writes.iter().enumerate() {
                self.rows.insert((b, r), mix(&name, j, &args));
            }
        }
    }

    /// A kernel that is only ever run for single tokens.
    fn one(&mut self, step: &Step, reads: &[Buf], writes: &[Buf]) {
        self.each(1, reads, writes, |_| format!("{step:?}"));
    }

    fn step(&mut self, prompt: &[i32], step: &Step) {
        match *step {
            Step::Need(_)
            | Step::AllocChunk { .. }
            | Step::EmitRow { .. }
            | Step::Advance { .. }
            | Step::ReadLogits => {}
            Step::UploadTokens { first, count } => {
                self.tokens = prompt[first..first + count].to_vec();
            }
            Step::EmbedToken { out, token, .. } => {
                self.each(1, &[], &[out], |_| format!("embed {token}"));
            }
            Step::EmbedTokens { out, n_tok, .. } => {
                let tokens = self.tokens.clone();
                let name = |r: usize| format!("embed {}", tokens[r] as u32);
                self.each(n_tok as usize, &[], &[out], name);
            }
            Step::RmsNormPlain { x, out, n, rows } => {
                self.each(rows as usize, &[x], &[out], |_| format!("norm {n}"));
            }
            Step::RmsNormWeight { x, w, out, n, rows } => {
                self.each(rows as usize, &[x], &[out], |_| format!("norm {n} {}", weight(w)));
            }
            Step::MatmulF16 { w, x, out, n_tok, .. } => {
                self.each(n_tok as usize, &[x], &[out], |_| format!("f16 {}", weight(w)));
            }
            Step::HcSplitNorm { mix, scale, residual, split, cur, normed, rows, .. } => {
                let writes = [split, cur, normed];
                let name = |_| format!("split {}", weight(scale));
                self.each(rows as usize, &[mix, residual], &writes, name);
            }
            Step::QuantizeQ8 { x, xq, xscale, in_dim, rows, .. } => {
                self.each(rows as usize, &[x], &[xq, xscale], |_| format!("q8 {in_dim}"));
            }
            Step::MatmulQ8 { w, xq, xscale, out, .. } => {
                self.each(1, &[xq, xscale], &[out], |_| format!("matmul {}", weight(w)));
            }
            Step::MatmulQ8Batch { w, xq, xscale, out, n_tok, .. } => {
                let name = |_| format!("matmul {}", weight(w));
                self.each(n_tok as usize, &[xq, xscale], &[out], name);
            }
            Step::QkvNorm { qr, qr_w, qr_out, kv, kv_out, rows, .. } => {
                let name = |_| format!("qkv {}", weight(qr_w));
                self.each(rows as usize, &[qr, kv], &[qr_out, kv_out], name);
            }
            Step::HeadNorm { x, n_tok, n_head, .. } => {
                self.each(n_tok as usize, &[x], &[x], |_| format!("heads {n_head}"));
            }
            Step::Rope { x, n_tok, n_head, pos, inverse, layer, .. } => {
                let name = |r: usize| format!("rope {n_head} {} {inverse} {layer}", pos as usize + r);
                self.each(n_tok as usize, &[x], &[x], name);
            }
            Step::StoreRaw { kv, cache, raw_cap, pos, n_tok } => {
                for r in 0..n_tok as usize {
                    let place = (pos as usize + r) % raw_cap as usize;
                    let v = mix(&format!("store {place}"), 0, &[self.get(cache, 0), self.get(kv, r)]);
                    self.rows.insert((cache, 0), v);
                }
            }
            Step::PrefillRaw { q, raw, heads, n_tok, .. } => {
                self.each(n_tok as usize, &[q, raw], &[heads], |_| "prefill".to_string());
            }
            Step::MatmulQ8Grouped { xq, xscale, out, .. } => self.one(step, &[xq, xscale], &[out]),
            Step::MatmulQ8HcExpand { xq, xscale, residual, split, out, out_hc, .. } => {
                self.one(step, &[xq, xscale, residual, split], &[out, out_hc]);
            }
            Step::DecodeMixed { q, raw, comp, heads, .. } => {
                self.one(step, &[q, raw, comp], &[heads]);
            }
            Step::IndexScore { q, weights, comp, scores, .. } => {
                self.one(step, &[q, weights, comp], &[scores]);
            }
            Step::IndexTopk { scores, topk, .. } => self.one(step, &[scores], &[topk]),
            Step::IndexedMixed { q, raw, comp, topk, heads, .. } => {
                self.one(step, &[q, raw, comp, topk], &[heads]);
            }
            Step::CompressorStore { kv, sc, state_kv, state_score, .. } => {
                self.one(step, &[kv, sc, state_kv, state_score], &[state_kv, state_score]);
            }
            Step::CompressorPool { state_kv, state_score, out, .. } => {
                self.one(step, &[state_kv, state_score], &[out]);
            }
            Step::CompressorShift4 { state_kv, state_score, .. } => {
                self.one(step, &[state_kv, state_score], &[state_kv, state_score]);
            }
            Step::Fp8Quantize { x, .. } => self.one(step, &[x], &[x]),
            Step::CopyAt { src, dst, .. } => self.one(step, &[src, dst], &[dst]),
            Step::Swiglu { gate, up, out, .. } => self.one(step, &[gate, up], &[out]),
            Step::RouterSelect { logits, bias, probs, selected, weights, has_bias, .. } => {
                let mut reads = vec![logits];
                if let (true, Operand::Buffer(b)) = (has_bias, bias) {
                    reads.push(b);
                }
                self.one(step, &reads, &[probs, selected, weights]);
            }
            Step::Q8kQuantize { x, out, .. } => self.one(step, &[x], &[out]),
            Step::MoeGateUpMid { xq, selected, weights, gate, up, mid, .. } => {
                self.one(step, &[xq, selected, weights], &[gate, up, mid]);
            }
            Step::MoeDownSum { midq, selected, out, .. } => {
                self.one(step, &[midq, selected], &[out]);
            }
            Step::HcExpand { block, add, residual, split, out, has_add } => {
                let mut reads = vec![block, residual, split];
                if has_add {
                    reads.push(add);
                }
                self.one(step, &reads, &[out]);
            }
            Step::OutputHcWeights { pre, out, .. } => self.one(step, &[pre], &[out]),
            Step::HcWeightedSum { x, weights, out } => self.one(step, &[x, weights], &[out]),
            Step::CopyRow { src, src_at, dst, dst_at, n } => {
                let v = self.get(src, src_at / n);
                let r = if is_chunk(dst) { dst_at / n } else { 0 };
                self.rows.insert((dst, r), v);
            }
            Step::Swap { a, b } => {
                let lines = if is_chunk(a) { 128 } else { 1 };
                for r in 0..lines {
                    let (x, y) = (self.get(a, r), self.get(b, r));
                    self.rows.insert((a, r), y);
                    self.rows.insert((b, r), x);
                }
            }
        }
    }

    fn run(&mut self, s: &mut Session, prompt: &[i32], plan: &[Step]) -> u64 {
        for step in plan {
            self.step(prompt, step);
            s.apply(step);
        }
        self.get(Buf::Logits, 0)
    }

    fn caches(&self) -> Vec<u64> {
        let of = |il: usize| {
            [
                Buf::RawCache(il),
                Buf::AttnCompCache(il),
                Buf::AttnStateKv(il),
                Buf::AttnStateScore(il),
                Buf::IndexCompCache(il),
                Buf::IndexStateKv(il),
                Buf::IndexStateScore(il),
            ]
        };
        (0..N_LAYER).flat_map(of).map(|b| self.get(b, 0)).collect()
    }
}

/// A session in which some tokens were decoded, and what it holds.
fn begun(w: &ModelWeights, tokens: &[i32]) -> (Session, Machine) {
    let mut s = Session::new(1024);
    let mut m = Machine::new();
    for &t in tokens {
        let plan = s.decode_next(w, t);
        m.run(&mut s, &[], &plan);
    }
    (s, m)
}

/// Logits and caches after a prompt, and after its tokens one by one; then after one more token.
fn both_ways(w: &ModelWeights, start: &[i32], prompt: &[i32]) -> [(u64, Vec<u64>); 4] {
    let (mut s, mut m) = begun(w, start);
    let plan = s.prefill(w, prompt).unwrap();
    let first = (m.run(&mut s, prompt, &plan), m.caches());
    let (mut t, mut n) = begun(w, start);
    let mut logits = 0;
    for &token in prompt {
        let plan = t.decode_next(w, token);
        logits = n.run(&mut t, &[], &plan);
    }
    let second = (logits, n.caches());
    assert_eq!(s.pos(), t.pos());
    assert_eq!(s.layer_n_comp, t.layer_n_comp);
    let plan = s.decode_next(w, 77);
    let third = (m.run(&mut s, &[], &plan), m.caches());
    let plan = t.decode_next(w, 77);
    let fourth = (n.run(&mut t, &[], &plan), n.caches());
    [first, second, third, fourth]
}

#[test]
fn prompts_compute_what_their_tokens_compute() {
    let w = weights();
    let prompt: Vec<i32> = (0..9).map(|i| 100 + 7 * i).collect();
    let [a, b, c, d] = both_ways(&w, &[1], &prompt);
    assert_eq!(a, b);
    assert_eq!(c, d);
    assert_ne!(a.0, c.0);
    // Another token in the prompt gives other logits.
    let mut other = prompt.clone();
    other[0] += 1;
    let [e, ..] = both_ways(&w, &[1], &other);
    assert_ne!(a.0, e.0);
}

#[test]
fn prompts_of_two_chunks_compute_what_their_tokens_compute() {
    let w = weights();
    let prompt: Vec<i32> = (0..130).map(|i| 3 * i).collect();
    let [a, b, c, d] = both_ways(&w, &[1, 2], &prompt);
    assert_eq!(a, b);
    assert_eq!(c, d);
}

#[test]
fn the_first_chunk_of_a_fresh_session_attends_to_the_window_alone() {
    let w = weights();
    let [a, b, ..] = both_ways(&w, &[], &[1, 2, 3, 4, 5]);
    assert_ne!(a.0, b.0);
}

#[test]
fn a_layer_without_a_shared_expert_takes_up_what_another_left() {
    let mut w = weights();
    w.layers[0].ffn_gate_shexp = None;
    assert!(w.get(Weight::Layer(0, LayerSlot::FfnGateShexp)).is_none());
    let [a, b, ..] = both_ways(&w, &[1], &[2, 3, 4]);
    assert_ne!(a.0, b.0);
}

#[test]
fn what_is_decoded_depends_on_the_caches_alone() {
    let w = weights();
    let (mut s, mut m) = begun(&w, &[1, 2, 3]);
    let (mut t, mut n) = begun(&w, &[1, 2, 3]);
    // Whatever single buffers hold besides is written before it is read.
    for b in [Buf::CurHc, Buf::Q, Buf::Heads, Buf::SharedOut, Buf::RoutedOut, Buf::XqI8] {
        n.rows.insert((b, 0), 12345);
    }
    let plan = s.decode_next(&w, 9);
    let x = m.run(&mut s, &[], &plan);
    let plan = t.decode_next(&w, 9);
    let y = n.run(&mut t, &[], &plan);
    assert_eq!(x, y);
    assert_eq!(m.caches(), n.caches());
}
