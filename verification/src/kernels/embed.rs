//! Token embeddings.
use vstd::prelude::*;

use crate::kernels::utils::{f16_bits_to_f32, widened};

verus! {

/// The embedding of one token, once for each of the `n_hc` residual streams.
pub fn embed_token_hc(w: &[u16], token: u32, n_embd: usize, n_hc: usize) -> (out: Vec<u32>)
    requires
        n_embd > 0,
        n_embd * n_hc <= usize::MAX,
        (token + 1) * n_embd <= w.len(),
    ensures
        out@ == Seq::new(
            (n_embd * n_hc) as nat,
            |i: int| widened(w@[token * n_embd + i % n_embd as int]),
        ),
{
    assert((token + 1) * n_embd == token * n_embd + n_embd) by (nonlinear_arith);
    assert(token * n_embd >= 0) by (nonlinear_arith);
    let base: usize = token as usize * n_embd;
    let n: usize = n_embd * n_hc;
    let mut out: Vec<u32> = Vec::new();
    let mut i: usize = 0;
    while i < n
        invariant
            i <= n,
            n_embd > 0,
            base == token * n_embd,
            base + n_embd <= w.len(),
            out@ =~= Seq::new(
                i as nat,
                |k: int| widened(w@[token * n_embd + k % n_embd as int]),
            ),
        decreases n - i,
    {
        out.push(f16_bits_to_f32(w[base + i % n_embd]));
        i = i + 1;
    }
    out
}

/// The row that a token reads: its number, clamped to the vocabulary.
pub open spec fn row_of_token(token: i32, n_vocab: int) -> int {
    if token < 0 {
        0
    } else if token < n_vocab {
        token as int
    } else {
        n_vocab - 1
    }
}

/// The row that a token reads.
pub fn token_row(token: i32, n_vocab: u32) -> (r: usize)
    requires
        n_vocab > 0,
    ensures
        r == row_of_token(token, n_vocab as int),
        r < n_vocab,
{
    if token < 0 {
        0
    } else if token as u32 >= n_vocab {
        (n_vocab - 1) as usize
    } else {
        token as usize
    }
}

/// Element `g` of the embeddings of a batch: tokens, in each the streams, in each the row.
pub open spec fn embedded(
    tokens: Seq<i32>,
    w: Seq<u16>,
    n_vocab: int,
    n_embd: int,
    n_hc: int,
    g: int,
) -> u32 {
    widened(w[row_of_token(tokens[(g / n_embd) / n_hc], n_vocab) * n_embd + g % n_embd])
}

/// The embeddings of a batch of tokens, each once for each of the `n_hc` residual streams.
pub fn embed_tokens_hc(tokens: &[i32], w: &[u16], n_vocab: u32, n_embd: usize, n_hc: usize) -> (out:
    Vec<u32>)
    requires
        n_embd > 0,
        n_hc > 0,
        n_vocab > 0,
        n_vocab * n_embd <= w.len(),
        (tokens@.len() * n_hc) * n_embd <= usize::MAX,
    ensures
        out@ == Seq::new(
            ((tokens@.len() * n_hc) * n_embd) as nat,
            |g: int| embedded(tokens@, w@, n_vocab as int, n_embd as int, n_hc as int, g),
        ),
{
    assert(tokens@.len() * n_hc <= (tokens@.len() * n_hc) * n_embd) by (nonlinear_arith)
        requires
            n_embd > 0,
            tokens@.len() * n_hc >= 0,
    {
    }
    let rows: usize = tokens.len() * n_hc;
    let n: usize = rows * n_embd;
    let mut out: Vec<u32> = Vec::new();
    let mut g: usize = 0;
    while g < n
        invariant
            g <= n,
            n_embd > 0,
            n_hc > 0,
            n_vocab > 0,
            n_vocab * n_embd <= w.len(),
            rows == tokens@.len() * n_hc,
            n == rows * n_embd,
            out@ =~= Seq::new(
                g as nat,
                |k: int| embedded(tokens@, w@, n_vocab as int, n_embd as int, n_hc as int, k),
            ),
        decreases n - g,
    {
        let d: usize = g % n_embd;
        let row: usize = g / n_embd;
        let t: usize = row / n_hc;
        proof {
            let len = tokens@.len() as int;
            vstd::arithmetic::div_mod::lemma_fundamental_div_mod(g as int, n_embd as int);
            vstd::arithmetic::div_mod::lemma_fundamental_div_mod(row as int, n_hc as int);
            assert(row < rows) by (nonlinear_arith)
                requires
                    n_embd * row <= g,
                    g < rows * n_embd,
                    n_embd > 0,
            ;
            assert(t < len) by (nonlinear_arith)
                requires
                    n_hc * t <= row,
                    row < len * n_hc,
                    n_hc > 0,
            ;
        }
        let tok: usize = token_row(tokens[t], n_vocab);
        assert(tok * n_embd + n_embd <= n_vocab * n_embd && tok * n_embd >= 0) by (nonlinear_arith)
            requires
                tok + 1 <= n_vocab,
                n_embd >= 0,
                tok >= 0,
        ;
        out.push(f16_bits_to_f32(w[tok * n_embd + d]));
        g = g + 1;
    }
    out
}

} // verus!
