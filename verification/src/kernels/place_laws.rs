//! Where the numbers that the kernels read and write stand.
use vstd::arithmetic::div_mod::lemma_fundamental_div_mod_converse;
use vstd::prelude::*;

use crate::bytes::le_nat;
use crate::kernels::attention::{comp_row, prompt_rows, prompt_start, row_element, Row};
use crate::kernels::attention_laws::compressed_rows_look_back;
use crate::kernels::embed::{embedded, row_of_token};
use crate::kernels::float::{NEG_INF, POS_INF};
use crate::kernels::hc::{
    pool_places, prompt_candidates, state_row, width_of, Candidate,
};
use crate::kernels::matmul::{block_term, i8_term, row_weight};
use crate::kernels::moe::{block_at, iq2_row, q2k_row, summed_places, weight_row_at};
use crate::kernels::quantize::{q8_0_count, total, total_stretch};
use crate::kernels::scores::{head_score, head_scores};
use crate::kernels::streams::{mix_products, stream_products, Expansion};
use crate::kernels::utils::widened;

verus! {

/// A token of the vocabulary reads its own row; a negative one the first, one behind the
/// vocabulary the last.
pub proof fn tokens_read_their_row(token: i32, n_vocab: int)
    requires
        0 < n_vocab,
    ensures
        0 <= token < n_vocab ==> row_of_token(token, n_vocab) == token,
        token < 0 ==> row_of_token(token, n_vocab) == 0,
        token >= n_vocab ==> row_of_token(token, n_vocab) == n_vocab - 1,
{
}

/// Every stream of a token starts as the row of the token, widened number by number; tokens lie
/// one behind the other, and in each of them its streams.
pub proof fn streams_start_as_the_row(
    tokens: Seq<i32>,
    w: Seq<u16>,
    n_vocab: int,
    n_embd: int,
    n_hc: int,
    t: int,
    h: int,
    d: int,
)
    requires
        0 <= t < tokens.len(),
        0 <= h < n_hc,
        0 <= d < n_embd,
        0 <= tokens[t] < n_vocab,
    ensures
        embedded(tokens, w, n_vocab, n_embd, n_hc, (t * n_hc + h) * n_embd + d) == widened(
            w[n_embd * tokens[t] + d],
        ),
{
    let row = t * n_hc + h;
    lemma_fundamental_div_mod_converse(row * n_embd + d, n_embd, row, d);
    lemma_fundamental_div_mod_converse(row, n_hc, t, h);
    assert(tokens[t] * n_embd == n_embd * tokens[t]) by (nonlinear_arith);
}

/// The heads of a token read queries one behind the other, a token after the heads of the token
/// before it, and each a weight of its own; all of them read the same key, and keys lie one behind
/// the other.
pub proof fn heads_read_their_query(t: int, c: int, h: int, n_head: int, head_dim: int)
    requires
        0 <= t,
        0 <= c,
        0 <= h < n_head,
        0 < head_dim,
        (t + 2) * n_head * head_dim <= usize::MAX,
        (t + 2) * n_head <= usize::MAX,
        (c + 1) * head_dim <= usize::MAX,
    ensures
        head_scores(t, c, n_head, head_dim).len() == n_head,
        head_scores(t, c, n_head, head_dim)[h] == head_score(t, c, h, n_head, head_dim),
        head_score(0, 0, 0, n_head, head_dim).q == 0,
        head_score(0, 0, 0, n_head, head_dim).k == 0,
        head_score(0, 0, 0, n_head, head_dim).weight == 0,
        head_score(t, c, h + 1, n_head, head_dim).q == head_score(t, c, h, n_head, head_dim).q
            + head_dim,
        head_score(t, c, h + 1, n_head, head_dim).weight == head_score(
            t,
            c,
            h,
            n_head,
            head_dim,
        ).weight + 1,
        head_score(t, c, h, n_head, head_dim).k == c * head_dim,
        head_score(t + 1, c, 0, n_head, head_dim).q == head_score(
            t,
            c,
            n_head - 1,
            n_head,
            head_dim,
        ).q + head_dim,
        head_score(t + 1, c, 0, n_head, head_dim).weight == head_score(
            t,
            c,
            n_head - 1,
            n_head,
            head_dim,
        ).weight + 1,
{
    let v = t * n_head + h;
    let next = (t + 1) * n_head;
    assert(next == t * n_head + n_head) by (nonlinear_arith)
        requires
            next == (t + 1) * n_head,
    ;
    assert((t + 2) * n_head == next + n_head) by (nonlinear_arith)
        requires
            next == (t + 1) * n_head,
    ;
    assert(0 <= t * n_head && 0 <= c * head_dim) by (nonlinear_arith)
        requires
            0 <= t,
            0 <= n_head,
            0 <= c,
            0 <= head_dim,
    ;
    assert((c + 1) * head_dim == c * head_dim + head_dim) by (nonlinear_arith);
    assert((v + 1) * head_dim == v * head_dim + head_dim) by (nonlinear_arith);
    assert(next * head_dim == (next - 1) * head_dim + head_dim) by (nonlinear_arith);
    assert(0 <= v * head_dim && (v + 1) * head_dim <= (next + n_head) * head_dim)
        by (nonlinear_arith)
        requires
            0 <= v,
            v + 1 <= next + n_head,
            0 < head_dim,
    ;
    assert(0 <= (next - 1) * head_dim && next * head_dim <= (next + n_head) * head_dim)
        by (nonlinear_arith)
        requires
            1 <= next,
            0 <= n_head,
            0 < head_dim,
    ;
    assert(0 * n_head == 0 && 0 * head_dim == 0);
}

/// The sum over the streams of a token takes, of each stream, the number at the same place, with
/// the weight of that stream.
pub proof fn sums_take_one_number_of_each_stream(
    t: int,
    d: int,
    n_hc: int,
    n_embd: int,
    stride: int,
    h: int,
)
    requires
        0 <= t,
        0 <= h < n_hc,
        0 <= d < n_embd,
        0 <= stride,
        (t + 1) * n_hc * n_embd <= usize::MAX,
        t * stride + n_hc <= usize::MAX,
    ensures
        ({
            let p = stream_products(t, d, n_hc, n_embd, stride);
            &&& p.len() == n_hc
            &&& p[0].a == t * n_hc * n_embd + d
            &&& p[0].b == t * stride
            &&& p[h].a == p[0].a + h * n_embd
            &&& p[h].b == p[0].b + h
        }),
{
    assert((t + 1) * n_hc * n_embd == (t * n_hc + n_hc) * n_embd) by (nonlinear_arith);
    assert(0 <= t * n_hc && 0 <= t * stride) by (nonlinear_arith)
        requires
            0 <= t,
            0 <= n_hc,
            0 <= stride,
    ;
    let v = t * n_hc + h;
    assert(v * n_embd == t * n_hc * n_embd + h * n_embd) by (nonlinear_arith)
        requires
            v == t * n_hc + h,
    ;
    assert(v * n_embd + n_embd <= (t * n_hc + n_hc) * n_embd) by (nonlinear_arith)
        requires
            v + 1 <= t * n_hc + n_hc,
            0 <= n_embd,
    ;
    assert(0 <= t * n_hc * n_embd && 0 <= h * n_embd) by (nonlinear_arith)
        requires
            0 <= t * n_hc,
            0 <= h,
            0 <= n_embd,
    ;
}

/// The split of a token holds a weight for each stream that enters a block, one for each that
/// leaves it, and a matrix of streams, whose rows are those that are mixed in: the weight with
/// which stream `src` goes into stream `dst` is the one behind that into stream `dst - 1`.
pub proof fn mixes_read_their_weight(
    e: Expansion,
    t: int,
    dst: int,
    src: int,
    d: int,
    n_hc: int,
    n_embd: int,
    mix_hc: int,
)
    requires
        0 <= t,
        0 <= dst < n_hc,
        0 <= src < n_hc,
        0 <= d < n_embd,
        2 * n_hc + n_hc * n_hc <= mix_hc,
        (t + 1) * mix_hc <= usize::MAX,
        (t + 1) * n_hc * n_embd <= usize::MAX,
        e.is_of(t, dst, d, n_hc, n_embd, mix_hc),
    ensures
        e.block == n_embd * t + d,
        e.post == mix_hc * t + n_hc + dst,
        e.mixes@.len() == n_hc,
        e.mixes@[src].a == mix_hc * t + n_hc + n_hc + n_hc * src + dst,
        e.mixes@[src].b == n_embd * (n_hc * t + src) + d,
        e.mixes@ == mix_products(t, dst, d, n_hc, n_embd, mix_hc),
{
    assert(t * mix_hc == mix_hc * t && src * n_hc == n_hc * src && t * n_embd == n_embd * t && t
        * n_hc == n_hc * t) by (nonlinear_arith);
    assert((t + 1) * mix_hc == mix_hc * t + mix_hc) by (nonlinear_arith);
    assert(0 <= mix_hc * t && 0 <= n_hc * t && 0 <= n_hc * src && n_hc * src + n_hc <= n_hc * n_hc)
        by (nonlinear_arith)
        requires
            0 <= t,
            0 <= src,
            src + 1 <= n_hc,
            0 <= mix_hc,
    ;
    let v = n_hc * t + src;
    assert((t + 1) * n_hc * n_embd == (n_hc * t + n_hc) * n_embd) by (nonlinear_arith);
    assert(v * n_embd == n_embd * v) by (nonlinear_arith);
    assert(0 <= v * n_embd && v * n_embd + n_embd <= (n_hc * t + n_hc) * n_embd)
        by (nonlinear_arith)
        requires
            0 <= v,
            v + 1 <= n_hc * t + n_hc,
            0 <= n_embd,
    ;
}

/// A window is pooled from the rows in which its tokens were stored, in their order. In windows of
/// four, the second half of those rows is taken, and before them the first half of the four rows
/// of the window before.
pub proof fn windows_are_pooled_where_they_were_stored(
    head_dim: int,
    ratio: int,
    d: int,
    c: int,
    i: int,
)
    requires
        0 <= d < head_dim,
        0 < ratio,
        0 <= c,
        0 <= i < ratio,
    ensures
        ({
            let places = pool_places(head_dim, ratio, d);
            let pos = c * ratio + i;
            if ratio == 4 {
                &&& places.len() == 8
                &&& places[4 + i] == 2 * head_dim * state_row(pos, ratio) + head_dim + d
                &&& places[i] == 2 * head_dim * (state_row(pos, ratio) - 4) + d
                &&& 4 <= state_row(pos, ratio) < 8
            } else {
                &&& places.len() == ratio
                &&& places[i] == head_dim * state_row(pos, ratio) + d
                &&& 0 <= state_row(pos, ratio) < ratio
            }
        }),
{
    let pos = c * ratio + i;
    lemma_fundamental_div_mod_converse(pos, ratio, c, i);
    assert(pos % ratio == i);
    let w = width_of(head_dim, ratio);
    assert(w * (4 + i) == (4 + i) * w && w * i == i * w) by (nonlinear_arith);
    if ratio == 4 {
        assert(2 * head_dim * state_row(pos, 4) == w * (4 + i));
    }
}

/// A row of a prompt is pooled from its own tokens, and in windows of four from those of the row
/// before it. Where that row was kept, its places in the state are those from which the state is
/// pooled. A token takes the bias of its place in the window.
pub proof fn prompts_pool_their_tokens(
    head_dim: int,
    ratio: int,
    pos0: int,
    c: int,
    replay: bool,
    d: int,
    i: int,
)
    requires
        0 <= d < head_dim,
        0 < ratio,
        0 <= c,
        0 <= i < ratio,
        0 <= pos0,
        (c + 1) * ratio * width_of(head_dim, ratio) <= usize::MAX,
    ensures
        ({
            let all = prompt_candidates(head_dim, ratio, pos0, c, replay, d);
            let width = if ratio == 4 {
                2 * head_dim
            } else {
                head_dim
            };
            let own = if ratio == 4 && (c > 0 || replay) {
                all[4 + i]
            } else {
                all[i]
            };
            let half = if ratio == 4 {
                head_dim
            } else {
                0
            };
            &&& all.len() == if ratio == 4 && (c > 0 || replay) {
                8
            } else {
                ratio
            }
            &&& own == (Candidate::Token {
                src: (width * (ratio * c + i) + half + d) as usize,
                ape: (width * ((pos0 + ratio * c + i) % ratio) + half + d) as usize,
            })
            &&& ratio == 4 && c > 0 ==> all[i] == (Candidate::Token {
                src: (width * (4 * c - 4 + i) + d) as usize,
                ape: (width * ((pos0 + 4 * c - 4 + i) % 4) + d) as usize,
            })
            &&& ratio == 4 && c == 0 && replay ==> all[i] == Candidate::State(
                pool_places(head_dim, 4, d)[i] as usize,
            )
        }),
{
    let width = width_of(head_dim, ratio);
    let t = c * ratio + i;
    let phase = (pos0 + t) % ratio;
    assert(c * ratio == ratio * c) by (nonlinear_arith);
    assert(t * width == width * t && phase * width == width * phase && i * width == width * i)
        by (nonlinear_arith);
    if ratio == 4 && c > 0 {
        let u = (c - 1) * 4 + i;
        let before = (pos0 + u) % 4;
        assert(u == 4 * c - 4 + i);
        assert(u * width == width * u && before * width == width * before) by (nonlinear_arith);
    }
}

/// Without a mask every compressed row is attended to. With one, a row is closed where the mask is
/// minus infinity, and open where it is zero or more.
pub proof fn masks_close_rows(mask: Seq<u32>, at: int, c: int)
    ensures
        comp_row(mask, false, at, c) == Row::Comp(c as u32),
        mask[at + c] == NEG_INF ==> comp_row(mask, true, at, c) == Row::Closed(c as u32),
        mask[at + c] <= POS_INF ==> comp_row(mask, true, at, c) == Row::Comp(c as u32),
{
}

/// Token `t` of a prompt attends to compressed row `c` behind its window, as row `t` of the mask
/// says: masks have a row of `n_comp` entries for each token.
pub proof fn masks_have_a_row_for_each_token(
    t: int,
    mask: Seq<u32>,
    n_comp: int,
    window: int,
    ratio: int,
    c: int,
)
    requires
        0 <= t,
        0 <= window,
        0 < ratio,
        0 <= c < n_comp,
        (c + 1) * ratio <= t + 1,
    ensures
        ({
            let raw = t + 1 - prompt_start(t, window);
            let rows = prompt_rows(t, mask, true, n_comp, window, ratio);
            &&& raw >= 0
            &&& raw + c < rows.len()
            &&& mask[n_comp * t + c] == NEG_INF ==> rows[raw + c] == Row::Closed(c as u32)
            &&& mask[n_comp * t + c] == 0 ==> rows[raw + c] == Row::Comp(c as u32)
        }),
{
    compressed_rows_look_back(t, ratio, n_comp, c);
    assert(t * n_comp == n_comp * t) by (nonlinear_arith);
    let raw = t + 1 - prompt_start(t, window);
    assert(prompt_rows(t, mask, true, n_comp, window, ratio)[raw + c] == comp_row(
        mask,
        true,
        t * n_comp,
        c,
    ));
}

/// Rows of keys have 512 numbers and lie one behind the other; a closed row is read like an open
/// one.
pub proof fn rows_of_keys_lie_one_behind_the_other(raw: Seq<u32>, comp: Seq<u32>, r: u32, d: int)
    ensures
        row_element(raw, comp, Row::Raw(r), d) == raw[512 * r + d],
        row_element(raw, comp, Row::Comp(r), d) == comp[512 * r + d],
        row_element(raw, comp, Row::Closed(r), d) == row_element(raw, comp, Row::Comp(r), d),
{
}

/// Number `d` of the output of token `t` is summed from the same number of the outputs of the
/// experts of the token, which lie one behind the other.
pub proof fn outputs_are_summed_over_experts(t: int, d: int, out_dim: int, n_expert: int, e: int)
    requires
        0 <= t,
        0 <= d < out_dim,
        0 <= e < n_expert,
        (t + 1) * n_expert * out_dim <= usize::MAX,
    ensures
        summed_places(out_dim * t + d, out_dim, n_expert).len() == n_expert,
        summed_places(out_dim * t + d, out_dim, n_expert)[e] == out_dim * (n_expert * t + e) + d,
{
    assert(out_dim * t == t * out_dim) by (nonlinear_arith);
    lemma_fundamental_div_mod_converse(out_dim * t + d, out_dim, t, d);
    let v = n_expert * t + e;
    assert(v == t * n_expert + e) by (nonlinear_arith)
        requires
            v == n_expert * t + e,
    ;
    assert((t + 1) * n_expert == t * n_expert + n_expert) by (nonlinear_arith);
    assert(0 <= t * n_expert) by (nonlinear_arith)
        requires
            0 <= t,
            0 <= n_expert,
    ;
    assert(v * out_dim == out_dim * v) by (nonlinear_arith);
    assert(0 <= v * out_dim && v * out_dim + out_dim <= ((t + 1) * n_expert) * out_dim)
        by (nonlinear_arith)
        requires
            0 <= v,
            v + 1 <= (t + 1) * n_expert,
            0 <= out_dim,
    ;
}

/// The rows of an expert lie one behind the other, and behind them those of the next expert.
pub proof fn experts_lie_one_behind_the_other(
    selected: Seq<i32>,
    pair: int,
    expert_bytes: int,
    row: int,
    row_bytes: int,
)
    requires
        0 <= selected[pair],
    ensures
        weight_row_at(selected, pair, expert_bytes, row, row_bytes) == expert_bytes
            * selected[pair] + row_bytes * row,
{
    assert(selected[pair] * expert_bytes == expert_bytes * selected[pair] && row * row_bytes
        == row_bytes * row) by (nonlinear_arith);
}

/// The blocks of a row lie one behind the other: those behind the first `m` are the blocks of a
/// row that starts behind them. Blocks of weights take 66 or 84 bytes, blocks of inputs 292.
pub proof fn blocks_lie_one_behind_the_other(
    w: Seq<u8>,
    w_at: int,
    xq: Seq<u8>,
    x_at: int,
    m: nat,
    n: nat,
)
    ensures
        iq2_row(w, w_at, xq, x_at, m + n) == iq2_row(w, w_at, xq, x_at, m) + iq2_row(
            w,
            w_at + 66 * m,
            xq,
            x_at + 292 * m,
            n,
        ),
        q2k_row(w, w_at, xq, x_at, m + n) == q2k_row(w, w_at, xq, x_at, m) + q2k_row(
            w,
            w_at + 84 * m,
            xq,
            x_at + 292 * m,
            n,
        ),
{
    let both = iq2_row(w, w_at, xq, x_at, m + n);
    let more = iq2_row(w, w_at + 66 * m, xq, x_at + 292 * m, n);
    assert forall|i: int| 0 <= i < m + n implies both[i] == #[trigger] (iq2_row(
        w,
        w_at,
        xq,
        x_at,
        m,
    ) + more)[i] by {
        if i >= m {
            assert(block_at(w, w_at, i, 66) =~= block_at(w, w_at + 66 * m, i - m, 66));
            assert(block_at(xq, x_at, i, 292) =~= block_at(xq, x_at + 292 * m, i - m, 292));
        }
    }
    assert(both =~= iq2_row(w, w_at, xq, x_at, m) + more);
    let both = q2k_row(w, w_at, xq, x_at, m + n);
    let more = q2k_row(w, w_at + 84 * m, xq, x_at + 292 * m, n);
    assert forall|i: int| 0 <= i < m + n implies both[i] == #[trigger] (q2k_row(
        w,
        w_at,
        xq,
        x_at,
        m,
    ) + more)[i] by {
        if i >= m {
            assert(block_at(w, w_at, i, 84) =~= block_at(w, w_at + 84 * m, i - m, 84));
            assert(block_at(xq, x_at, i, 292) =~= block_at(xq, x_at + 292 * m, i - m, 292));
        }
    }
    assert(both =~= q2k_row(w, w_at, xq, x_at, m) + more);
}

/// Block `b` of a row of one-byte weights is the first block of a row that starts 34 bytes further
/// for each block before it; its scale is in its first two bytes.
pub proof fn weight_blocks_start_with_their_scale(
    w: Seq<u8>,
    w_at: int,
    xq: Seq<i8>,
    x_block: int,
    in_dim: int,
    b: int,
)
    requires
        0 <= b,
        0 <= x_block,
        x_block + b <= usize::MAX,
        32 * b <= in_dim,
    ensures
        block_term(w, w_at, xq, x_block, in_dim, b).scale == widened(
            le_nat(w, w_at + 34 * b, 2) as u16,
        ),
        block_term(w, w_at, xq, x_block, in_dim, b) == block_term(
            w,
            w_at + 34 * b,
            xq,
            x_block + b,
            in_dim - 32 * b,
            0,
        ),
        block_term(w, w_at, xq, x_block, in_dim, b).xscale_at == x_block + b,
        block_term(w, w_at, xq, x_block, in_dim, b).dot == total(
            |k: int| row_weight(w, w_at, 32 * b + k) * xq[32 * (x_block + b) + k],
            (if in_dim < 32 * b + 32 {
                in_dim - 32 * b
            } else {
                32
            }) as nat,
        ) as i32,
{
    let c = q8_0_count(in_dim, b) as nat;
    let f = |k: int| row_weight(w, w_at, 32 * b + k) * xq[32 * (x_block + b) + k];
    let g = i8_term(w, w_at + b * 34 + 2, xq, (x_block + b) * 32);
    if c <= 32 {
        assert forall|k: int| 0 <= k < c implies #[trigger] f(0 + k) == 1 * g(k) by {
            assert((32 * b + k) / 32 == b && (32 * b + k) % 32 == k);
        }
        total_stretch(f, g, 0, 1, c);
        assert(1 * total(g, c) == total(g, c)) by (nonlinear_arith);
    }
}

} // verus!
