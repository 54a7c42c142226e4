//! What the scores of compressed rows are made of.
use vstd::prelude::*;

use crate::kernels::indexer::{is_masked, visible};
use crate::model::{N_INDEXER_HEAD, N_INDEXER_HEAD_DIM};

verus! {

/// What one head adds to a score: the product of the query from `q` on with the key from `k` on,
/// if that is positive, times the weight at `weight`.
#[derive(Clone, Copy, Debug, PartialEq, Eq, Structural)]
pub struct HeadScore {
    pub q: usize,
    pub k: usize,
    pub weight: usize,
}

/// What head `h` adds to the score of row `c` for token `t`.
pub open spec fn head_score(t: int, c: int, h: int, n_head: int, head_dim: int) -> HeadScore {
    HeadScore {
        q: ((t * n_head + h) * head_dim) as usize,
        k: (c * head_dim) as usize,
        weight: (t * n_head + h) as usize,
    }
}

/// What the heads add to the score of row `c` for token `t`.
pub open spec fn head_scores(t: int, c: int, n_head: int, head_dim: int) -> Seq<HeadScore> {
    Seq::new(n_head as nat, |h: int| head_score(t, c, h, n_head, head_dim))
}

/// The queries, weights and keys up to row `c` and token `t` fit in memory.
pub open spec fn heads_fit(t: int, c: int, n_head: int, head_dim: int) -> bool {
    &&& (t + 1) * n_head * head_dim <= usize::MAX
    &&& (t + 1) * n_head <= usize::MAX
    &&& (c + 1) * head_dim <= usize::MAX
}

/// What head `h` adds.
fn one_head(t: usize, c: usize, h: usize, n_head: usize, head_dim: usize) -> (s: HeadScore)
    requires
        h < n_head,
        heads_fit(t as int, c as int, n_head as int, head_dim as int),
    ensures
        s == head_score(t as int, c as int, h as int, n_head as int, head_dim as int),
        s.q + head_dim <= (t + 1) * n_head * head_dim,
        s.k + head_dim <= (c + 1) * head_dim,
        s.weight < (t + 1) * n_head,
{
    proof {
        let v = t * n_head + h;
        assert((t + 1) * n_head == t * n_head + n_head) by (nonlinear_arith);
        assert(0 <= t * n_head && 0 <= c * head_dim) by (nonlinear_arith);
        assert((c + 1) * head_dim == c * head_dim + head_dim) by (nonlinear_arith);
        assert(v * head_dim + head_dim <= ((t + 1) * n_head) * head_dim) by (nonlinear_arith)
            requires
                v + 1 <= (t + 1) * n_head,
        ;
        assert(0 <= v * head_dim) by (nonlinear_arith)
            requires
                v >= 0,
        ;
    }
    let v: usize = t * n_head + h;
    HeadScore { q: v * head_dim, k: c * head_dim, weight: v }
}

/// What the score of row `c` for token `t` of a batch that begins at `pos0` is made of, head by
/// head; `None` for a row that the token may not see, whose score is minus infinity.
pub fn indexer_scores(
    c: u32,
    t: u32,
    pos0: u32,
    n_head: usize,
    head_dim: usize,
    ratio: u32,
    causal: bool,
) -> (r: Option<Vec<HeadScore>>)
    requires
        ratio > 0,
        pos0 + t < u32::MAX,
        heads_fit(t as int, c as int, n_head as int, head_dim as int),
    ensures
        r is None <==> causal && c >= visible(pos0 + t, ratio as int),
        r matches Some(heads) ==> heads@ == head_scores(
            t as int,
            c as int,
            n_head as int,
            head_dim as int,
        ),
{
    if is_masked(c, pos0 + t, ratio, causal) {
        return None;
    }
    let mut heads: Vec<HeadScore> = Vec::new();
    let mut h: usize = 0;
    while h < n_head
        invariant
            h <= n_head,
            heads_fit(t as int, c as int, n_head as int, head_dim as int),
            heads@ =~= head_scores(
                t as int,
                c as int,
                n_head as int,
                head_dim as int,
            ).take(h as int),
        decreases n_head - h,
    {
        heads.push(one_head(t as usize, c as usize, h, n_head, head_dim));
        h = h + 1;
    }
    assert(heads@ =~= head_scores(t as int, c as int, n_head as int, head_dim as int));
    Some(heads)
}

/// The same for a single token at `pos0`, with the model's heads: in each turn four groups of
/// threads take one head each.
pub fn indexer_score_one_direct(c: u32, pos0: u32, ratio: u32, causal: bool) -> (r: Option<
    Vec<HeadScore>,
>)
    requires
        ratio > 0,
        pos0 < u32::MAX,
        (c + 1) * N_INDEXER_HEAD_DIM <= usize::MAX,
    ensures
        r is None <==> causal && c >= visible(pos0 as int, ratio as int),
        r matches Some(heads) ==> heads@ == head_scores(
            0,
            c as int,
            N_INDEXER_HEAD as int,
            N_INDEXER_HEAD_DIM as int,
        ),
{
    if is_masked(c, pos0, ratio, causal) {
        return None;
    }
    let ghost all = head_scores(0, c as int, N_INDEXER_HEAD as int, N_INDEXER_HEAD_DIM as int);
    let mut heads: Vec<HeadScore> = Vec::new();
    let mut h0: usize = 0;
    while h0 < N_INDEXER_HEAD
        invariant
            h0 <= N_INDEXER_HEAD,
            h0 % 4 == 0,
            (c + 1) * N_INDEXER_HEAD_DIM <= usize::MAX,
            all == head_scores(0, c as int, N_INDEXER_HEAD as int, N_INDEXER_HEAD_DIM as int),
            heads@ =~= all.take(h0 as int),
        decreases N_INDEXER_HEAD - h0,
    {
        let mut group: usize = 0;
        while group < 4
            invariant
                group <= 4,
                h0 + 4 <= N_INDEXER_HEAD,
                (c + 1) * N_INDEXER_HEAD_DIM <= usize::MAX,
                all == head_scores(0, c as int, N_INDEXER_HEAD as int, N_INDEXER_HEAD_DIM as int),
                heads@ =~= all.take(h0 + group),
            decreases 4 - group,
        {
            heads.push(one_head(0, c as usize, h0 + group, N_INDEXER_HEAD, N_INDEXER_HEAD_DIM));
            group = group + 1;
        }
        h0 = h0 + 4;
    }
    assert(heads@ =~= all);
    Some(heads)
}

} // verus!
