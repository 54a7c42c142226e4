//! Choice of experts, and the order in which their work is done.
use vstd::prelude::*;

use vstd::slice::slice_subrange;

use crate::bytes::le_nat;
use crate::kernels::float::{float_gt, gt, NEG_INF};
use crate::kernels::indexer::{better, topk_score_better};
use crate::kernels::moe_laws::{down_row_of, row_of};
use crate::kernels::quantize::{
    dot_iq2_xxs_q8k, dot_q2k_q8k, iq2_term, q2k_offset_term, q2k_term, total, Iq2Dot, Q2Dot,
    IQ2_SIGNS, IQ2_XXS_GRID,
};
use crate::kernels::quantize_laws::tables_are_usable;
use crate::kernels::utils::widened;
use crate::model::{ceil_div, N_EXPERT, N_EXPERT_USED};

verus! {

/// One expert's score is better than another's: higher, or equal and of the lower expert.
pub fn router_score_better(av: u32, ai: u32, bv: u32, bi: u32) -> (r: bool)
    ensures
        r == better(av, ai, bv, bi),
{
    topk_score_better(av, ai, bv, bi)
}

/// The first place of a list whose expert has a lower score than `e`, or the end.
pub open spec fn expert_place(scores: Seq<u32>, list: Seq<i32>, e: i32, j: int) -> int
    decreases list.len() - j,
{
    if j >= list.len() || gt(scores[e as int], scores[list[j] as int]) {
        j
    } else {
        expert_place(scores, list, e, j + 1)
    }
}

/// The list with expert `e` in its place, cut to six. At its end only an expert with a score
/// above minus infinity takes a place.
pub open spec fn with_expert(scores: Seq<u32>, list: Seq<i32>, e: i32) -> Seq<i32> {
    let p = expert_place(scores, list, e, 0);
    if p == list.len() && (list.len() >= N_EXPERT_USED || !gt(scores[e as int], NEG_INF)) {
        list
    } else {
        let longer = list.insert(p, e);
        if longer.len() > N_EXPERT_USED {
            longer.take(N_EXPERT_USED as int)
        } else {
            longer
        }
    }
}

/// The six best of the first `n` experts, best first; of equal scores the lower expert first.
pub open spec fn top_experts(scores: Seq<u32>, n: nat) -> Seq<i32>
    decreases n,
{
    if n == 0 {
        Seq::empty()
    } else {
        with_expert(scores, top_experts(scores, (n - 1) as nat), (n - 1) as i32)
    }
}

/// Six places, of which those that no expert takes hold -1.
pub open spec fn six_places(list: Seq<i32>) -> Seq<i32> {
    Seq::new(
        N_EXPERT_USED as nat,
        |i: int|
            if i < list.len() {
                list[i]
            } else {
                -1i32
            },
    )
}

/// Selects the six experts with the best scores, by insertion.
pub fn select_experts(scores: &[u32]) -> (selected: Vec<i32>)
    requires
        scores.len() == N_EXPERT,
    ensures
        selected@ == six_places(top_experts(scores@, N_EXPERT as nat)),
{
    let mut list: Vec<i32> = Vec::new();
    let mut e: i32 = 0;
    while e < 256
        invariant
            0 <= e <= 256,
            scores.len() == N_EXPERT,
            list@ == top_experts(scores@, e as nat),
            list@.len() <= 6,
            forall|x: int| 0 <= x < list@.len() ==> 0 <= #[trigger] list@[x] < e,
        decreases 256 - e,
    {
        let s: u32 = scores[e as usize];
        let mut j: usize = 0;
        while j < list.len() && !float_gt(s, scores[list[j] as usize])
            invariant
                j <= list@.len(),
                0 <= e < 256,
                scores.len() == N_EXPERT,
                s == scores@[e as int],
                forall|x: int| 0 <= x < list@.len() ==> 0 <= #[trigger] list@[x] < e,
                expert_place(scores@, list@, e, 0) == expert_place(scores@, list@, e, j as int),
            decreases list@.len() - j,
        {
            j = j + 1;
        }
        let ghost before = list@;
        if j < list.len() || (list.len() < N_EXPERT_USED && float_gt(s, NEG_INF)) {
            list.insert(j, e);
            if list.len() > N_EXPERT_USED {
                list.truncate(N_EXPERT_USED);
            }
            assert forall|x: int| 0 <= x < list@.len() implies 0 <= #[trigger] list@[x] < e + 1 by {
                if x < j {
                    assert(list@[x] == before[x]);
                } else if x > j {
                    assert(list@[x] == before[x - 1]);
                }
            }
        }
        e = e + 1;
    }
    while list.len() < N_EXPERT_USED
        invariant
            top_experts(scores@, N_EXPERT as nat).len() <= list@.len() <= 6,
            list@ =~= six_places(top_experts(scores@, N_EXPERT as nat)).take(list@.len() as int),
        decreases 6 - list@.len(),
    {
        list.push(-1);
    }
    assert(list@ =~= six_places(top_experts(scores@, N_EXPERT as nat)));
    list
}

/// The best of the first `n` experts that are left, with its score: none where no score is a
/// number.
pub open spec fn best_expert(scores: Seq<u32>, n: nat) -> (u32, u32)
    decreases n,
{
    if n == 0 {
        (NEG_INF, u32::MAX)
    } else {
        let b = best_expert(scores, (n - 1) as nat);
        let e = (n - 1) as u32;
        if better(scores[e as int], e, b.0, b.1) {
            (scores[e as int], e)
        } else {
            b
        }
    }
}

/// The scores with one expert taken out.
pub open spec fn without_expert(scores: Seq<u32>, e: u32) -> Seq<u32> {
    if e < scores.len() {
        scores.update(e as int, NEG_INF)
    } else {
        scores
    }
}

/// The experts that `k` rounds select, each taking the best that is left.
pub open spec fn rounds(scores: Seq<u32>, k: nat) -> Seq<u32>
    decreases k,
{
    if k == 0 {
        Seq::empty()
    } else {
        let e = best_expert(scores, scores.len()).1;
        seq![e] + rounds(without_expert(scores, e), (k - 1) as nat)
    }
}

/// Finds the best expert, its score and number.
fn find_best(scores: &Vec<u32>) -> (r: (u32, u32))
    requires
        scores.len() == N_EXPERT,
    ensures
        r == best_expert(scores@, scores@.len()),
{
    let mut best: (u32, u32) = (NEG_INF, u32::MAX);
    let mut e: usize = 0;
    while e < N_EXPERT
        invariant
            e <= N_EXPERT,
            scores.len() == N_EXPERT,
            best == best_expert(scores@, e as nat),
        decreases N_EXPERT - e,
    {
        if router_score_better(scores[e], e as u32, best.0, best.1) {
            best = (scores[e], e as u32);
        }
        e = e + 1;
    }
    best
}

/// Selects six experts in rounds, each of which takes the best that is left. A round that finds
/// no number gives `u32::MAX`.
pub fn select_experts_in_rounds(scores: &[u32]) -> (selected: Vec<u32>)
    requires
        scores.len() == N_EXPERT,
    ensures
        selected@ == rounds(scores@, N_EXPERT_USED as nat),
{
    let mut left: Vec<u32> = Vec::new();
    let mut i: usize = 0;
    while i < N_EXPERT
        invariant
            i <= N_EXPERT,
            scores.len() == N_EXPERT,
            left@ =~= scores@.take(i as int),
        decreases N_EXPERT - i,
    {
        left.push(scores[i]);
        i = i + 1;
    }
    assert(left@ =~= scores@);
    let mut selected: Vec<u32> = Vec::new();
    assert(selected@ + rounds(left@, 6) =~= rounds(scores@, 6));
    let mut k: usize = 0;
    while k < N_EXPERT_USED
        invariant
            k <= N_EXPERT_USED,
            left.len() == N_EXPERT,
            rounds(scores@, 6) == selected@ + rounds(left@, (6 - k) as nat),
        decreases N_EXPERT_USED - k,
    {
        let (_, e) = find_best(&left);
        let ghost rest = rounds(without_expert(left@, e), (6 - k - 1) as nat);
        assert(selected@ + (seq![e] + rest) =~= selected@.push(e) + rest);
        selected.push(e);
        if (e as usize) < left.len() {
            left.set(e as usize, NEG_INF);
        }
        k = k + 1;
    }
    assert(selected@ + rounds(left@, 0) =~= selected@);
    selected
}

/// The row of the token table that a token reads: its own, or row 0 where it has none.
pub open spec fn hash_row(token: i32, hash_rows: int) -> int {
    if 0 <= token < hash_rows {
        token as int
    } else {
        0
    }
}

/// Selects the six experts that the token table names for a token.
pub fn select_hashed(hash: &[i32], token: i32, hash_rows: u32) -> (selected: Vec<i32>)
    requires
        hash_row(token, hash_rows as int) * 6 + 6 <= hash.len(),
    ensures
        selected@ == hash@.subrange(
            hash_row(token, hash_rows as int) * 6,
            hash_row(token, hash_rows as int) * 6 + 6,
        ),
{
    let row: usize = if token < 0 || token as u32 >= hash_rows {
        0
    } else {
        token as usize
    };
    let ghost at = hash_row(token, hash_rows as int) * 6;
    let mut selected: Vec<i32> = Vec::new();
    let mut j: usize = 0;
    while j < 6
        invariant
            j <= 6,
            row == hash_row(token, hash_rows as int),
            at == row * 6,
            at + 6 <= hash.len(),
            selected@ =~= hash@.subrange(at, at + j),
        decreases 6 - j,
    {
        selected.push(hash[row * 6 + j]);
        j = j + 1;
    }
    selected
}

/// The token of row `t`: from the list where there is one, else the one given.
pub open spec fn row_token(tokens: Seq<i32>, t: int, token_scalar: i32) -> i32 {
    if tokens.len() > 0 {
        tokens[t]
    } else {
        token_scalar
    }
}

/// The token of row `t`: from the list where there is one, else the one given.
pub fn token_of(tokens: &[i32], t: usize, token_scalar: i32) -> (r: i32)
    requires
        tokens.len() == 0 || t < tokens.len(),
    ensures
        r == row_token(tokens@, t as int, token_scalar),
{
    if tokens.len() > 0 {
        tokens[t]
    } else {
        token_scalar
    }
}

/// The probability that weighs a selected expert: zero for a place that no expert takes.
pub fn selected_probs(probs: &[u32], selected: &[i32]) -> (weights: Vec<u32>)
    requires
        probs.len() == N_EXPERT,
    ensures
        weights@ == weights_of(probs@, selected@),
{
    let mut weights: Vec<u32> = Vec::new();
    let mut i: usize = 0;
    while i < selected.len()
        invariant
            i <= selected@.len(),
            probs.len() == N_EXPERT,
            weights@ =~= weights_of(probs@, selected@.take(i as int)),
        decreases selected@.len() - i,
    {
        let e: i32 = selected[i];
        if e >= 0 && e < 256 {
            weights.push(probs[e as usize]);
        } else {
            weights.push(0);
        }
        i = i + 1;
    }
    assert(selected@.take(i as int) =~= selected@);
    weights
}

/// The experts of a token, and the probabilities that weigh them, as bits and not yet scaled.
#[derive(Debug)]
pub struct Selection {
    pub selected: Vec<i32>,
    pub weights: Vec<u32>,
}

/// The weights of a selection.
pub open spec fn weights_of(probs: Seq<u32>, selected: Seq<i32>) -> Seq<u32> {
    selected.map_values(
        |e: i32|
            if 0 <= e < N_EXPERT {
                probs[e as int]
            } else {
                0u32
            },
    )
}

/// The experts that the token table names for token `t` of a batch, or for the token given where
/// there is no list of tokens.
pub open spec fn hashed_experts(
    hash: Seq<i32>,
    tokens: Seq<i32>,
    t: int,
    token_scalar: i32,
    hash_rows: int,
) -> Seq<i32> {
    let token = row_token(tokens, t, token_scalar);
    hash.subrange(hash_row(token, hash_rows) * 6, hash_row(token, hash_rows) * 6 + 6)
}

/// Chooses the experts of a token from its 256 probabilities and scores (a score is a probability
/// with its bias added): by the token table where `hash_mode`, else by insertion.
pub fn router_select(
    t: usize,
    probs: &[u32],
    scores: &[u32],
    hash: &[i32],
    tokens: &[i32],
    token_scalar: i32,
    hash_rows: u32,
    hash_mode: bool,
) -> (r: Selection)
    requires
        probs.len() == N_EXPERT,
        scores.len() == N_EXPERT,
        hash_mode ==> (tokens.len() == 0 || t < tokens.len()) && hash_row(
            row_token(tokens@, t as int, token_scalar),
            hash_rows as int,
        ) * 6 + 6 <= hash.len(),
    ensures
        r.selected@ == if hash_mode {
            hashed_experts(hash@, tokens@, t as int, token_scalar, hash_rows as int)
        } else {
            six_places(top_experts(scores@, N_EXPERT as nat))
        },
        r.weights@ == weights_of(probs@, r.selected@),
{
    let selected: Vec<i32> = if hash_mode {
        select_hashed(hash, token_of(tokens, t, token_scalar), hash_rows)
    } else {
        select_experts(scores)
    };
    let weights: Vec<u32> = selected_probs(probs, selected.as_slice());
    Selection { selected, weights }
}

/// Chooses the experts of a token as `router_select` does: the threads of a block share the work
/// on the probabilities, and one of them inserts.
pub fn router_select_parallel(
    t: usize,
    probs: &[u32],
    scores: &[u32],
    hash: &[i32],
    tokens: &[i32],
    token_scalar: i32,
    hash_rows: u32,
    hash_mode: bool,
) -> (r: Selection)
    requires
        probs.len() == N_EXPERT,
        scores.len() == N_EXPERT,
        hash_mode ==> (tokens.len() == 0 || t < tokens.len()) && hash_row(
            row_token(tokens@, t as int, token_scalar),
            hash_rows as int,
        ) * 6 + 6 <= hash.len(),
    ensures
        r.selected@ == if hash_mode {
            hashed_experts(hash@, tokens@, t as int, token_scalar, hash_rows as int)
        } else {
            six_places(top_experts(scores@, N_EXPERT as nat))
        },
        r.weights@ == weights_of(probs@, r.selected@),
{
    router_select(t, probs, scores, hash, tokens, token_scalar, hash_rows, hash_mode)
}

/// The number of an expert as a selection holds it: -1 for none.
pub open spec fn chosen(e: u32) -> i32 {
    if e == u32::MAX {
        -1i32
    } else {
        e as i32
    }
}

proof fn best_in_range(scores: Seq<u32>, n: nat)
    requires
        n <= scores.len(),
        scores.len() == N_EXPERT,
    ensures
        best_expert(scores, n).1 < N_EXPERT || best_expert(scores, n).1 == u32::MAX,
    decreases n,
{
    if n > 0 {
        best_in_range(scores, (n - 1) as nat);
    }
}

proof fn rounds_in_range(scores: Seq<u32>, k: nat)
    requires
        scores.len() == N_EXPERT,
    ensures
        rounds(scores, k).len() == k,
        forall|i: int|
            0 <= i < k ==> #[trigger] rounds(scores, k)[i] < N_EXPERT || rounds(scores, k)[i]
                == u32::MAX,
    decreases k,
{
    if k > 0 {
        let e = best_expert(scores, scores.len()).1;
        best_in_range(scores, scores.len());
        rounds_in_range(without_expert(scores, e), (k - 1) as nat);
    }
}

/// Chooses the experts of a token as `router_select` does, but in rounds instead of by insertion.
pub fn router_select_warp_topk(
    t: usize,
    probs: &[u32],
    scores: &[u32],
    hash: &[i32],
    tokens: &[i32],
    token_scalar: i32,
    hash_rows: u32,
    hash_mode: bool,
) -> (r: Selection)
    requires
        probs.len() == N_EXPERT,
        scores.len() == N_EXPERT,
        hash_mode ==> (tokens.len() == 0 || t < tokens.len()) && hash_row(
            row_token(tokens@, t as int, token_scalar),
            hash_rows as int,
        ) * 6 + 6 <= hash.len(),
    ensures
        r.selected@ == if hash_mode {
            hashed_experts(hash@, tokens@, t as int, token_scalar, hash_rows as int)
        } else {
            rounds(scores@, N_EXPERT_USED as nat).map_values(|e: u32| chosen(e))
        },
        r.weights@ == weights_of(probs@, r.selected@),
{
    let selected: Vec<i32> = if hash_mode {
        select_hashed(hash, token_of(tokens, t, token_scalar), hash_rows)
    } else {
        let ids: Vec<u32> = select_experts_in_rounds(scores);
        proof {
            rounds_in_range(scores@, N_EXPERT_USED as nat);
        }
        let mut out: Vec<i32> = Vec::new();
        let mut i: usize = 0;
        while i < ids.len()
            invariant
                i <= ids@.len(),
                forall|x: int|
                    0 <= x < ids@.len() ==> #[trigger] ids@[x] < N_EXPERT || ids@[x] == u32::MAX,
                out@ =~= ids@.take(i as int).map_values(|e: u32| chosen(e)),
            decreases ids@.len() - i,
        {
            let e: u32 = ids[i];
            if e == u32::MAX {
                out.push(-1);
            } else {
                out.push(e as i32);
            }
            i = i + 1;
        }
        assert(ids@.take(i as int) =~= ids@);
        out
    };
    let weights: Vec<u32> = selected_probs(probs, selected.as_slice());
    Selection { selected, weights }
}

/// The expert that a pair of token and place goes to: expert 0 for a place that none takes.
pub open spec fn expert_of(e: i32) -> int {
    if e < 0 {
        0
    } else {
        e as int
    }
}

/// The expert that a selection entry stands for.
pub fn expert_index(e: i32) -> (r: usize)
    ensures
        r == expert_of(e),
{
    if e < 0 {
        0
    } else {
        e as usize
    }
}

/// How many of the first `n` pairs go to expert `e`.
pub open spec fn pairs_of(selected: Seq<i32>, n: nat, e: int) -> nat
    decreases n,
{
    if n == 0 {
        0
    } else {
        pairs_of(selected, (n - 1) as nat, e) + if expert_of(selected[n - 1]) == e {
            1nat
        } else {
            0nat
        }
    }
}

/// Every entry names one of the experts, or none.
pub open spec fn names_experts(selected: Seq<i32>) -> bool {
    forall|i: int| 0 <= i < selected.len() ==> #[trigger] selected[i] < N_EXPERT
}

/// An expert has at most as many pairs as there are.
proof fn pairs_bound(selected: Seq<i32>, n: nat, e: int)
    ensures
        pairs_of(selected, n, e) <= n,
    decreases n,
{
    if n > 0 {
        pairs_bound(selected, (n - 1) as nat, e);
    }
}

/// Adds to `counts` how many pairs go to each expert.
pub fn moe_count_sorted_pairs(selected: &[i32], counts: &mut Vec<u32>)
    requires
        names_experts(selected@),
        old(counts).len() == N_EXPERT,
        forall|e: int|
            0 <= e < N_EXPERT ==> #[trigger] old(counts)@[e] + selected@.len() <= u32::MAX,
    ensures
        final(counts)@ == Seq::new(
            N_EXPERT as nat,
            |e: int| (old(counts)@[e] + pairs_of(selected@, selected@.len(), e)) as u32,
        ),
{
    let ghost start = counts@;
    let mut i: usize = 0;
    while i < selected.len()
        invariant
            i <= selected@.len(),
            names_experts(selected@),
            counts@.len() == N_EXPERT,
            start.len() == N_EXPERT,
            forall|e: int| 0 <= e < N_EXPERT ==> #[trigger] start[e] + selected@.len() <= u32::MAX,
            forall|e: int|
                0 <= e < N_EXPERT ==> #[trigger] counts@[e] == start[e] + pairs_of(
                    selected@,
                    i as nat,
                    e,
                ),
        decreases selected@.len() - i,
    {
        assert(selected@[i as int] < N_EXPERT);
        let e: usize = expert_index(selected[i]);
        proof {
            pairs_bound(selected@, i as nat, e as int);
            assert(start[e as int] + selected@.len() <= u32::MAX);
        }
        let c: u32 = counts[e];
        counts.set(e, c + 1);
        i = i + 1;
    }
    proof {
        assert forall|e: int| 0 <= e < N_EXPERT implies start[e] + #[trigger] pairs_of(
            selected@,
            selected@.len(),
            e,
        ) <= u32::MAX by {
            pairs_bound(selected@, selected@.len(), e);
        }
    }
    assert(counts@ =~= Seq::new(
        N_EXPERT as nat,
        |e: int| (start[e] + pairs_of(selected@, selected@.len(), e)) as u32,
    ));
}

/// The sum of the first `n` counts.
pub open spec fn sum_to(counts: Seq<u32>, n: nat) -> nat
    decreases n,
{
    if n == 0 {
        0
    } else {
        sum_to(counts, (n - 1) as nat) + counts[n - 1] as nat
    }
}

/// Partial sums rise.
pub proof fn sums_rise(counts: Seq<u32>, a: nat, b: nat)
    requires
        a <= b,
    ensures
        sum_to(counts, a) <= sum_to(counts, b),
    decreases b,
{
    if a < b {
        sums_rise(counts, a, (b - 1) as nat);
    }
}

/// Where the pairs of each expert start when they are put in order of experts, and where the
/// last of them end; and a second copy of the starts.
pub fn moe_prefix_sorted_pairs(counts: &[u32]) -> (r: (Vec<u32>, Vec<u32>))
    requires
        counts.len() == N_EXPERT,
        sum_to(counts@, N_EXPERT as nat) <= u32::MAX,
    ensures
        r.0@ == Seq::new(N_EXPERT as nat + 1, |e: int| sum_to(counts@, e as nat) as u32),
        r.1@ == Seq::new(N_EXPERT as nat, |e: int| sum_to(counts@, e as nat) as u32),
{
    let mut offsets: Vec<u32> = Vec::new();
    let mut cursors: Vec<u32> = Vec::new();
    let mut sum: u32 = 0;
    let mut e: usize = 0;
    while e < N_EXPERT
        invariant
            e <= N_EXPERT,
            counts.len() == N_EXPERT,
            sum_to(counts@, N_EXPERT as nat) <= u32::MAX,
            sum == sum_to(counts@, e as nat),
            offsets@ =~= Seq::new(e as nat, |x: int| sum_to(counts@, x as nat) as u32),
            cursors@ =~= Seq::new(e as nat, |x: int| sum_to(counts@, x as nat) as u32),
        decreases N_EXPERT - e,
    {
        offsets.push(sum);
        cursors.push(sum);
        proof {
            sums_rise(counts@, (e + 1) as nat, N_EXPERT as nat);
        }
        sum = sum + counts[e];
        e = e + 1;
    }
    offsets.push(sum);
    (offsets, cursors)
}

/// The place of a pair: behind the earlier pairs of its expert.
pub open spec fn pair_place(selected: Seq<i32>, cursors: Seq<u32>, pair: int) -> int {
    let e = expert_of(selected[pair]);
    cursors[e] + pairs_of(selected, pair as nat, e)
}

/// The stretches that the cursors start hold the pairs of their experts, and do not overlap.
pub open spec fn stretches(selected: Seq<i32>, cursors: Seq<u32>, len: int) -> bool {
    &&& cursors.len() == N_EXPERT
    &&& forall|e: int|
        0 <= e < N_EXPERT ==> #[trigger] cursors[e] + pairs_of(selected, selected.len(), e) <= len
    &&& forall|a: int, b: int|
        0 <= a < b < N_EXPERT ==> #[trigger] cursors[a] + pairs_of(selected, selected.len(), a)
            <= #[trigger] cursors[b]
}

/// Earlier pairs are fewer.
proof fn pairs_rise(selected: Seq<i32>, a: nat, b: nat, e: int)
    requires
        a <= b,
    ensures
        pairs_of(selected, a, e) <= pairs_of(selected, b, e),
    decreases b,
{
    if a < b {
        pairs_rise(selected, a, (b - 1) as nat, e);
    }
}

/// Every pair has a place of its own.
proof fn places_differ(selected: Seq<i32>, cursors: Seq<u32>, len: int, p: int, q: int)
    requires
        names_experts(selected),
        stretches(selected, cursors, len),
        0 <= p < q < selected.len(),
    ensures
        pair_place(selected, cursors, p) != pair_place(selected, cursors, q),
        0 <= pair_place(selected, cursors, p) < len,
        0 <= pair_place(selected, cursors, q) < len,
{
    let n = selected.len();
    let a = expert_of(selected[p]);
    let b = expert_of(selected[q]);
    assert(selected[p] < N_EXPERT && selected[q] < N_EXPERT);
    pairs_rise(selected, (p + 1) as nat, n, a);
    pairs_rise(selected, (q + 1) as nat, n, b);
    pairs_rise(selected, (p + 1) as nat, q as nat, a);
    assert(cursors[a] + pairs_of(selected, n, a) <= len);
    assert(cursors[b] + pairs_of(selected, n, b) <= len);
    if a < b {
        assert(cursors[a] + pairs_of(selected, n, a) <= cursors[b]);
    } else if b < a {
        assert(cursors[b] + pairs_of(selected, n, b) <= cursors[a]);
    }
}

/// Puts the pairs in order of experts, and of equal experts in their own order. Moves each
/// cursor behind the pairs of its expert.
pub fn moe_scatter_sorted_pairs(selected: &[i32], cursors: &mut Vec<u32>, sorted: &mut Vec<u32>)
    requires
        names_experts(selected@),
        selected@.len() <= u32::MAX,
        stretches(selected@, old(cursors)@, old(sorted)@.len() as int),
        old(sorted)@.len() <= u32::MAX,
    ensures
        final(sorted)@.len() == old(sorted)@.len(),
        forall|p: int|
            0 <= p < selected@.len() ==> final(sorted)@[#[trigger] pair_place(
                selected@,
                old(cursors)@,
                p,
            )] == p,
        forall|x: int|
            0 <= x < old(sorted)@.len() && (forall|p: int|
                0 <= p < selected@.len() ==> #[trigger] pair_place(selected@, old(cursors)@, p)
                    != x) ==> #[trigger] final(sorted)@[x] == old(sorted)@[x],
        final(cursors)@ == Seq::new(
            N_EXPERT as nat,
            |e: int| (old(cursors)@[e] + pairs_of(selected@, selected@.len(), e)) as u32,
        ),
{
    let ghost c0 = cursors@;
    let ghost s0 = sorted@;
    let mut i: usize = 0;
    while i < selected.len()
        invariant
            i <= selected@.len(),
            names_experts(selected@),
            selected@.len() <= u32::MAX,
            stretches(selected@, c0, s0.len() as int),
            s0.len() <= u32::MAX,
            sorted@.len() == s0.len(),
            cursors@.len() == N_EXPERT,
            forall|e: int|
                0 <= e < N_EXPERT ==> #[trigger] cursors@[e] == c0[e] + pairs_of(
                    selected@,
                    i as nat,
                    e,
                ),
            forall|p: int| 0 <= p < i ==> sorted@[#[trigger] pair_place(selected@, c0, p)] == p,
            forall|x: int|
                0 <= x < s0.len() && (forall|p: int|
                    0 <= p < i ==> #[trigger] pair_place(selected@, c0, p) != x)
                    ==> #[trigger] sorted@[x] == s0[x],
        decreases selected@.len() - i,
    {
        assert(selected@[i as int] < N_EXPERT);
        let e: usize = expert_index(selected[i]);
        let at: u32 = cursors[e];
        proof {
            pairs_rise(selected@, (i + 1) as nat, selected@.len(), e as int);
            assert(c0[e as int] + pairs_of(selected@, selected@.len(), e as int) <= s0.len());
            assert(at == pair_place(selected@, c0, i as int));
        }
        let ghost before = sorted@;
        cursors.set(e, at + 1);
        sorted.set(at as usize, i as u32);
        assert forall|p: int| 0 <= p < i + 1 implies sorted@[#[trigger] pair_place(
            selected@,
            c0,
            p,
        )] == p by {
            if p < i {
                places_differ(selected@, c0, s0.len() as int, p, i as int);
                assert(before[pair_place(selected@, c0, p)] == p);
            }
        }
        assert forall|x: int|
            0 <= x < s0.len() && (forall|p: int|
                0 <= p < i + 1 ==> #[trigger] pair_place(selected@, c0, p) != x) implies #[trigger]
        sorted@[x] == s0[x] by {
            assert(pair_place(selected@, c0, i as int) != x);
            assert(before[x] == s0[x]);
        }
        i = i + 1;
    }
    proof {
        assert forall|e: int| 0 <= e < N_EXPERT implies c0[e] + #[trigger] pairs_of(
            selected@,
            selected@.len(),
            e,
        ) <= u32::MAX by {
            assert(c0[e] + pairs_of(selected@, selected@.len(), e) <= s0.len());
        }
    }
    assert(cursors@ =~= Seq::new(
        N_EXPERT as nat,
        |e: int| (c0[e] + pairs_of(selected@, selected@.len(), e)) as u32,
    ));
}

/// Tiles of `block_m` pairs for the first `n` experts.
pub open spec fn tiles_to(counts: Seq<u32>, block_m: int, n: nat) -> nat
    decreases n,
{
    if n == 0 {
        0
    } else {
        (tiles_to(counts, block_m, (n - 1) as nat) + ceil_div(counts[n - 1] as int, block_m)) as nat
    }
}

/// An expert with `n` pairs has no more than `n` tiles.
proof fn tiles_rise(counts: Seq<u32>, block_m: int, a: nat, b: nat)
    requires
        a <= b,
        block_m > 0,
    ensures
        tiles_to(counts, block_m, a) <= tiles_to(counts, block_m, b),
    decreases b,
{
    if a < b {
        tiles_rise(counts, block_m, a, (b - 1) as nat);
        crate::engine::grid_covers_exactly(counts[b - 1] as int, block_m);
    }
}

/// Where the tiles of each expert start, and how many there are in all.
pub fn moe_build_expert_tile_offsets(counts: &[u32], block_m: u32) -> (r: (Vec<u32>, u32))
    requires
        counts.len() == N_EXPERT,
        block_m > 0,
        forall|e: int| 0 <= e < N_EXPERT ==> #[trigger] counts@[e] + block_m - 1 <= u32::MAX,
        tiles_to(counts@, block_m as int, N_EXPERT as nat) <= u32::MAX,
    ensures
        r.0@ == Seq::new(
            N_EXPERT as nat + 1,
            |e: int| tiles_to(counts@, block_m as int, e as nat) as u32,
        ),
        r.1 == tiles_to(counts@, block_m as int, N_EXPERT as nat),
{
    let mut offsets: Vec<u32> = Vec::new();
    let mut sum: u32 = 0;
    let mut e: usize = 0;
    while e < N_EXPERT
        invariant
            e <= N_EXPERT,
            counts.len() == N_EXPERT,
            block_m > 0,
            forall|x: int| 0 <= x < N_EXPERT ==> #[trigger] counts@[x] + block_m - 1 <= u32::MAX,
            tiles_to(counts@, block_m as int, N_EXPERT as nat) <= u32::MAX,
            sum == tiles_to(counts@, block_m as int, e as nat),
            offsets@ =~= Seq::new(
                e as nat,
                |x: int| tiles_to(counts@, block_m as int, x as nat) as u32,
            ),
        decreases N_EXPERT - e,
    {
        offsets.push(sum);
        assert(counts@[e as int] + block_m - 1 <= u32::MAX);
        proof {
            tiles_rise(counts@, block_m as int, (e + 1) as nat, N_EXPERT as nat);
            crate::engine::grid_covers_exactly(counts@[e as int] as int, block_m as int);
        }
        sum = sum + (counts[e] + (block_m - 1)) / block_m;
        e = e + 1;
    }
    offsets.push(sum);
    (offsets, sum)
}

/// The expert of each tile and the first of its pairs, for the tiles of the first `n` experts in
/// order.
pub open spec fn tile_list(counts: Seq<u32>, block_m: int, n: nat) -> Seq<(u32, u32)>
    decreases n,
{
    if n == 0 {
        Seq::empty()
    } else {
        tile_list(counts, block_m, (n - 1) as nat) + Seq::new(
            ceil_div(counts[n - 1] as int, block_m) as nat,
            |t: int| ((n - 1) as u32, (t * block_m) as u32),
        )
    }
}

/// Lists the tiles: for each its expert and the first of its pairs.
pub fn moe_build_expert_tiles(counts: &[u32], block_m: u32) -> (r: (Vec<u32>, Vec<u32>))
    requires
        counts.len() == N_EXPERT,
        block_m > 0,
        forall|e: int| 0 <= e < N_EXPERT ==> #[trigger] counts@[e] + block_m - 1 <= u32::MAX,
    ensures
        r.0@ == tile_list(counts@, block_m as int, N_EXPERT as nat).map_values(
            |t: (u32, u32)| t.0,
        ),
        r.1@ == tile_list(counts@, block_m as int, N_EXPERT as nat).map_values(
            |t: (u32, u32)| t.1,
        ),
{
    let mut experts: Vec<u32> = Vec::new();
    let mut starts: Vec<u32> = Vec::new();
    let ghost m = block_m as int;
    let mut e: usize = 0;
    while e < N_EXPERT
        invariant
            e <= N_EXPERT,
            counts.len() == N_EXPERT,
            block_m > 0,
            m == block_m,
            forall|x: int| 0 <= x < N_EXPERT ==> #[trigger] counts@[x] + block_m - 1 <= u32::MAX,
            experts@ =~= tile_list(counts@, m, e as nat).map_values(|t: (u32, u32)| t.0),
            starts@ =~= tile_list(counts@, m, e as nat).map_values(|t: (u32, u32)| t.1),
        decreases N_EXPERT - e,
    {
        assert(counts@[e as int] + block_m - 1 <= u32::MAX);
        let n: u32 = (counts[e] + (block_m - 1)) / block_m;
        let ghost before = tile_list(counts@, m, e as nat);
        let ghost own = Seq::new(n as nat, |t: int| (e as u32, (t * m) as u32));
        let mut t: u32 = 0;
        while t < n
            invariant
                t <= n,
                e < N_EXPERT,
                block_m > 0,
                m == block_m,
                n == ceil_div(counts@[e as int] as int, m),
                counts@[e as int] + block_m - 1 <= u32::MAX,
                own == Seq::new(n as nat, |t: int| (e as u32, (t * m) as u32)),
                experts@ =~= (before + own.take(t as int)).map_values(|t: (u32, u32)| t.0),
                starts@ =~= (before + own.take(t as int)).map_values(|t: (u32, u32)| t.1),
            decreases n - t,
        {
            proof {
                crate::engine::grid_covers_exactly(counts@[e as int] as int, m);
                assert(t * m <= (n - 1) * m) by (nonlinear_arith)
                    requires
                        t <= n - 1,
                        m > 0,
                ;
                assert(t * m >= 0) by (nonlinear_arith)
                    requires
                        t >= 0,
                        m > 0,
                ;
            }
            experts.push(e as u32);
            starts.push(t * block_m);
            t = t + 1;
        }
        assert(own.take(n as int) =~= own);
        e = e + 1;
    }
    (experts, starts)
}

/// The token and the place of a pair.
pub fn pair_parts(pair: usize, n_expert: usize) -> (r: (usize, usize))
    requires
        n_expert > 0,
    ensures
        r.0 == pair as int / n_expert as int,
        r.1 == pair as int % n_expert as int,
{
    let tok: usize = pair / n_expert;
    (tok, pair % n_expert)
}

/// The product of a block of weights of the first projections with a block of activations.
pub open spec fn iq2_dot(blk: Seq<u8>, q8k: Seq<u8>) -> Iq2Dot {
    Iq2Dot {
        xd: widened(le_nat(blk, 0, 2) as u16),
        yd: le_nat(q8k, 0, 4) as u32,
        sum: total(iq2_term(blk, q8k, IQ2_XXS_GRID@, IQ2_SIGNS@), 256) as i32,
    }
}

/// The product of a block of weights of the last projection with a block of activations.
pub open spec fn q2k_dot(blk: Seq<u8>, q8k: Seq<u8>) -> Q2Dot {
    Q2Dot {
        xd: widened(le_nat(blk, 80, 2) as u16),
        xdmin: widened(le_nat(blk, 82, 2) as u16),
        yd: le_nat(q8k, 0, 4) as u32,
        isum: total(q2k_term(blk, q8k), 256) as i32,
        summs: total(q2k_offset_term(blk, q8k), 16) as i32,
    }
}

/// Block `b` of a row of blocks of `size` bytes that starts at `at`.
pub open spec fn block_at(d: Seq<u8>, at: int, b: int, size: int) -> Seq<u8> {
    d.subrange(at + b * size, at + b * size + size)
}

/// The products of the blocks of a weight row of the first projections, which starts at `w_at`,
/// with those of a row of activations, which starts at `x_at`.
fn moe_gate_up_terms(w: &[u8], w_at: usize, xq: &[u8], x_at: usize, blocks: usize) -> (terms:
    Vec<Iq2Dot>)
    requires
        w_at + blocks * 66 <= w.len(),
        x_at + blocks * 292 <= xq.len(),
    ensures
        terms@ == iq2_row(w@, w_at as int, xq@, x_at as int, blocks as nat),
{
    let mut terms: Vec<Iq2Dot> = Vec::new();
    let mut b: usize = 0;
    while b < blocks
        invariant
            b <= blocks,
            w_at + blocks * 66 <= w.len(),
            x_at + blocks * 292 <= xq.len(),
            terms@ =~= iq2_row(w@, w_at as int, xq@, x_at as int, b as nat),
        decreases blocks - b,
    {
        let at: usize = w_at + b * 66;
        let xt: usize = x_at + b * 292;
        let blk: &[u8] = slice_subrange(w, at, at + 66);
        let q8k: &[u8] = slice_subrange(xq, xt, xt + 292);
        proof {
            tables_are_usable(blk@);
        }
        let d: Iq2Dot = dot_iq2_xxs_q8k(blk, q8k, IQ2_XXS_GRID.as_slice(), IQ2_SIGNS.as_slice());
        assert(d == iq2_dot(blk@, q8k@));
        terms.push(d);
        b = b + 1;
    }
    terms
}

/// The products of the blocks of a weight row of the last projection, which starts at `w_at`, with
/// those of a row of activations, which starts at `x_at`.
fn moe_down_terms(w: &[u8], w_at: usize, midq: &[u8], x_at: usize, blocks: usize) -> (terms:
    Vec<Q2Dot>)
    requires
        w_at + blocks * 84 <= w.len(),
        x_at + blocks * 292 <= midq.len(),
    ensures
        terms@ == q2k_row(w@, w_at as int, midq@, x_at as int, blocks as nat),
{
    let mut terms: Vec<Q2Dot> = Vec::new();
    let mut b: usize = 0;
    while b < blocks
        invariant
            b <= blocks,
            w_at + blocks * 84 <= w.len(),
            x_at + blocks * 292 <= midq.len(),
            terms@ =~= q2k_row(w@, w_at as int, midq@, x_at as int, b as nat),
        decreases blocks - b,
    {
        let at: usize = w_at + b * 84;
        let xt: usize = x_at + b * 292;
        let blk: &[u8] = slice_subrange(w, at, at + 84);
        let q8k: &[u8] = slice_subrange(midq, xt, xt + 292);
        let d: Q2Dot = dot_q2k_q8k(blk, q8k);
        assert(d == q2k_dot(blk@, q8k@));
        terms.push(d);
        b = b + 1;
    }
    terms
}

/// Where row `row` of the weights of the expert of a pair starts.
pub open spec fn weight_row_at(
    selected: Seq<i32>,
    pair: int,
    expert_bytes: int,
    row: int,
    row_bytes: int,
) -> int {
    expert_of(selected[pair]) * expert_bytes + row * row_bytes
}

/// The products of the blocks of a weight row.
pub open spec fn iq2_row(w: Seq<u8>, w_at: int, xq: Seq<u8>, x_at: int, blocks: nat) -> Seq<
    Iq2Dot,
> {
    Seq::new(
        blocks,
        |b: int| iq2_dot(block_at(w, w_at, b, 66), block_at(xq, x_at, b, 292)),
    )
}

/// The products of the blocks of a weight row.
pub open spec fn q2k_row(w: Seq<u8>, w_at: int, midq: Seq<u8>, x_at: int, blocks: nat) -> Seq<
    Q2Dot,
> {
    Seq::new(
        blocks,
        |b: int| q2k_dot(block_at(w, w_at, b, 84), block_at(midq, x_at, b, 292)),
    )
}

/// Where the weight row of a pair starts.
fn find_weight_row(
    selected: &[i32],
    pair: usize,
    expert_bytes: usize,
    row: usize,
    row_bytes: usize,
) -> (r: usize)
    requires
        pair < selected.len(),
        weight_row_at(
            selected@,
            pair as int,
            expert_bytes as int,
            row as int,
            row_bytes as int,
        ) <= usize::MAX,
    ensures
        r == weight_row_at(
            selected@,
            pair as int,
            expert_bytes as int,
            row as int,
            row_bytes as int,
        ),
{
    let e: usize = expert_index(selected[pair]);
    assert(e * expert_bytes >= 0 && row * row_bytes >= 0) by (nonlinear_arith);
    e * expert_bytes + row * row_bytes
}

/// What row `row` of the first two projections of a pair is made of: the products of the blocks of
/// the pair's expert with the activations of its token.
pub fn moe_gate_up_mid_qwarp32(
    gate_base: &[u8],
    up_base: &[u8],
    xq: &[u8],
    selected: &[i32],
    pair: usize,
    row: usize,
    expert_bytes: usize,
    row_bytes: usize,
    xq_blocks: usize,
    n_expert: usize,
) -> (r: (Vec<Iq2Dot>, Vec<Iq2Dot>))
    requires
        n_expert > 0,
        pair < selected.len(),
        weight_row_at(
            selected@,
            pair as int,
            expert_bytes as int,
            row as int,
            row_bytes as int,
        ) + xq_blocks * 66 <= gate_base.len(),
        weight_row_at(
            selected@,
            pair as int,
            expert_bytes as int,
            row as int,
            row_bytes as int,
        ) + xq_blocks * 66 <= up_base.len(),
        (pair as int / n_expert as int + 1) * (xq_blocks * 292) <= xq.len(),
    ensures
        r.0@ == iq2_row(
            gate_base@,
            weight_row_at(
                selected@,
                pair as int,
                expert_bytes as int,
                row as int,
                row_bytes as int,
            ),
            xq@,
            (pair as int / n_expert as int) * (xq_blocks * 292),
            xq_blocks as nat,
        ),
        r.1@ == iq2_row(
            up_base@,
            weight_row_at(
                selected@,
                pair as int,
                expert_bytes as int,
                row as int,
                row_bytes as int,
            ),
            xq@,
            (pair as int / n_expert as int) * (xq_blocks * 292),
            xq_blocks as nat,
        ),
{
    let (tok, _) = pair_parts(pair, n_expert);
    assert(gate_base@.len() == gate_base.len() && xq@.len() == xq.len());
    let at: usize = find_weight_row(selected, pair, expert_bytes, row, row_bytes);
    proof {
        let size = xq_blocks * 292;
        assert((tok + 1) * size == tok * size + size) by (nonlinear_arith);
        assert(tok * size >= 0) by (nonlinear_arith)
            requires
                size >= 0,
        ;
    }
    let size: usize = xq_blocks * 292;
    let x_at: usize = tok * size;
    let gate: Vec<Iq2Dot> = moe_gate_up_terms(gate_base, at, xq, x_at, xq_blocks);
    let up: Vec<Iq2Dot> = moe_gate_up_terms(up_base, at, xq, x_at, xq_blocks);
    (gate, up)
}

/// The same for the pair at place `y` of a list that is sorted by expert.
pub fn moe_gate_up_mid_sorted_qwarp32(
    gate_base: &[u8],
    up_base: &[u8],
    xq: &[u8],
    sorted_pairs: &[u32],
    selected: &[i32],
    y: usize,
    row: usize,
    expert_bytes: usize,
    row_bytes: usize,
    xq_blocks: usize,
    n_expert: usize,
) -> (r: (Vec<Iq2Dot>, Vec<Iq2Dot>))
    requires
        n_expert > 0,
        y < sorted_pairs.len(),
        sorted_pairs@[y as int] < selected.len(),
        weight_row_at(
            selected@,
            sorted_pairs@[y as int] as int,
            expert_bytes as int,
            row as int,
            row_bytes as int,
        ) + xq_blocks * 66 <= gate_base.len(),
        weight_row_at(
            selected@,
            sorted_pairs@[y as int] as int,
            expert_bytes as int,
            row as int,
            row_bytes as int,
        ) + xq_blocks * 66 <= up_base.len(),
        (sorted_pairs@[y as int] as int / n_expert as int + 1) * (xq_blocks * 292) <= xq.len(),
    ensures
        r.0@ == iq2_row(
            gate_base@,
            weight_row_at(
                selected@,
                sorted_pairs@[y as int] as int,
                expert_bytes as int,
                row as int,
                row_bytes as int,
            ),
            xq@,
            (sorted_pairs@[y as int] as int / n_expert as int) * (xq_blocks * 292),
            xq_blocks as nat,
        ),
        r.1@ == iq2_row(
            up_base@,
            weight_row_at(
                selected@,
                sorted_pairs@[y as int] as int,
                expert_bytes as int,
                row as int,
                row_bytes as int,
            ),
            xq@,
            (sorted_pairs@[y as int] as int / n_expert as int) * (xq_blocks * 292),
            xq_blocks as nat,
        ),
{
    moe_gate_up_mid_qwarp32(
        gate_base,
        up_base,
        xq,
        selected,
        sorted_pairs[y] as usize,
        row,
        expert_bytes,
        row_bytes,
        xq_blocks,
        n_expert,
    )
}

/// What row `row` of the last projection of a pair is made of: the products of the blocks of the
/// pair's expert with the activations of the pair.
pub fn moe_down_qwarp32(
    down_base: &[u8],
    midq: &[u8],
    selected: &[i32],
    pair: usize,
    row: usize,
    expert_bytes: usize,
    row_bytes: usize,
    midq_blocks: usize,
) -> (r: Vec<Q2Dot>)
    requires
        pair < selected.len(),
        weight_row_at(
            selected@,
            pair as int,
            expert_bytes as int,
            row as int,
            row_bytes as int,
        ) + midq_blocks * 84 <= down_base.len(),
        (pair + 1) * (midq_blocks * 292) <= midq.len(),
    ensures
        r@ == q2k_row(
            down_base@,
            weight_row_at(
                selected@,
                pair as int,
                expert_bytes as int,
                row as int,
                row_bytes as int,
            ),
            midq@,
            pair * (midq_blocks * 292),
            midq_blocks as nat,
        ),
{
    assert(down_base@.len() == down_base.len() && midq@.len() == midq.len());
    let at: usize = find_weight_row(selected, pair, expert_bytes, row, row_bytes);
    let ghost size = midq_blocks * 292;
    assert((pair + 1) * size == pair * size + size) by (nonlinear_arith);
    assert(pair * size >= 0) by (nonlinear_arith)
        requires
            size >= 0,
    ;
    moe_down_terms(down_base, at, midq, pair * (midq_blocks * 292), midq_blocks)
}

/// The same for the pair at place `y` of a list that is sorted by expert.
pub fn moe_down_sorted_qwarp32(
    down_base: &[u8],
    midq: &[u8],
    sorted_pairs: &[u32],
    selected: &[i32],
    y: usize,
    row: usize,
    expert_bytes: usize,
    row_bytes: usize,
    midq_blocks: usize,
) -> (r: Vec<Q2Dot>)
    requires
        y < sorted_pairs.len(),
        sorted_pairs@[y as int] < selected.len(),
        weight_row_at(
            selected@,
            sorted_pairs@[y as int] as int,
            expert_bytes as int,
            row as int,
            row_bytes as int,
        ) + midq_blocks * 84 <= down_base.len(),
        (sorted_pairs@[y as int] + 1) * (midq_blocks * 292) <= midq.len(),
    ensures
        r@ == q2k_row(
            down_base@,
            weight_row_at(
                selected@,
                sorted_pairs@[y as int] as int,
                expert_bytes as int,
                row as int,
                row_bytes as int,
            ),
            midq@,
            sorted_pairs@[y as int] * (midq_blocks * 292),
            midq_blocks as nat,
        ),
{
    moe_down_qwarp32(
        down_base,
        midq,
        selected,
        sorted_pairs[y] as usize,
        row,
        expert_bytes,
        row_bytes,
        midq_blocks,
    )
}

/// What row `row` of the sum over the six places of a token is made of: the products of each
/// place's expert.
pub fn moe_down_sum6_qwarp32(
    down_base: &[u8],
    midq: &[u8],
    selected: &[i32],
    row: usize,
    expert_bytes: usize,
    row_bytes: usize,
    midq_blocks: usize,
) -> (r: Vec<Vec<Q2Dot>>)
    requires
        selected.len() >= 6,
        forall|slot: int|
            0 <= slot < 6 ==> #[trigger] weight_row_at(
                selected@,
                slot,
                expert_bytes as int,
                row as int,
                row_bytes as int,
            ) + midq_blocks * 84 <= down_base.len(),
        6 * (midq_blocks * 292) <= midq.len(),
    ensures
        r@.len() == 6,
        forall|slot: int|
            0 <= slot < 6 ==> (#[trigger] r@[slot])@ == q2k_row(
                down_base@,
                weight_row_at(
                    selected@,
                    slot,
                    expert_bytes as int,
                    row as int,
                    row_bytes as int,
                ),
                midq@,
                slot * (midq_blocks * 292),
                midq_blocks as nat,
            ),
{
    let mut r: Vec<Vec<Q2Dot>> = Vec::new();
    let mut slot: usize = 0;
    while slot < 6
        invariant
            slot <= 6,
            selected.len() >= 6,
            forall|slot: int|
                0 <= slot < 6 ==> #[trigger] weight_row_at(
                    selected@,
                    slot,
                    expert_bytes as int,
                    row as int,
                    row_bytes as int,
                ) + midq_blocks * 84 <= down_base.len(),
            6 * (midq_blocks * 292) <= midq.len(),
            r@.len() == slot,
            forall|x: int|
                0 <= x < slot ==> (#[trigger] r@[x])@ == q2k_row(
                    down_base@,
                    weight_row_at(
                        selected@,
                        x,
                        expert_bytes as int,
                        row as int,
                        row_bytes as int,
                    ),
                    midq@,
                    x * (midq_blocks * 292),
                    midq_blocks as nat,
                ),
        decreases 6 - slot,
    {
        assert(weight_row_at(
            selected@,
            slot as int,
            expert_bytes as int,
            row as int,
            row_bytes as int,
        ) + midq_blocks * 84 <= down_base.len());
        proof {
            let size = midq_blocks * 292;
            assert((slot + 1) * size <= 6 * size) by (nonlinear_arith)
                requires
                    slot + 1 <= 6,
                    size >= 0,
            ;
        }
        let terms: Vec<Q2Dot> = moe_down_qwarp32(
            down_base,
            midq,
            selected,
            slot,
            row,
            expert_bytes,
            row_bytes,
            midq_blocks,
        );
        r.push(terms);
        slot = slot + 1;
    }
    r
}

/// The places of the outputs that are summed to number `gid`.
pub open spec fn summed_places(gid: int, out_dim: int, n_expert: int) -> Seq<usize> {
    Seq::new(
        n_expert as nat,
        |e: int| (((gid / out_dim) * n_expert + e) * out_dim + gid % out_dim) as usize,
    )
}

/// Where the outputs stand that are summed to number `gid` of the tokens' outputs: one for every
/// place of the token.
pub fn moe_sum(gid: usize, out_dim: usize, n_expert: usize, n_tokens: usize) -> (places: Vec<usize>)
    requires
        gid < n_tokens * out_dim,
        n_tokens * n_expert * out_dim <= usize::MAX,
    ensures
        places@ == Seq::new(
            n_expert as nat,
            |e: int|
                (((gid as int / out_dim as int) * n_expert + e) * out_dim + gid as int
                    % out_dim as int) as usize,
        ),
        forall|e: int|
            0 <= e < places@.len() ==> #[trigger] places@[e] < n_tokens * n_expert * out_dim,
        places@ == summed_places(gid as int, out_dim as int, n_expert as int),
{
    assert(out_dim > 0) by (nonlinear_arith)
        requires
            gid < n_tokens * out_dim,
            gid >= 0,
    ;
    let tok: usize = gid / out_dim;
    let row: usize = gid % out_dim;
    proof {
        vstd::arithmetic::div_mod::lemma_fundamental_div_mod(gid as int, out_dim as int);
        assert(out_dim * tok == tok * out_dim) by (nonlinear_arith);
        assert(tok < n_tokens) by (nonlinear_arith)
            requires
                tok * out_dim + row == gid,
                gid < n_tokens * out_dim,
                row >= 0,
                out_dim > 0,
        ;
        assert((tok + 1) * n_expert <= n_tokens * n_expert) by (nonlinear_arith)
            requires
                tok + 1 <= n_tokens,
        ;
        assert((tok + 1) * n_expert == tok * n_expert + n_expert) by (nonlinear_arith);
        assert(tok * n_expert >= 0) by (nonlinear_arith);
    }
    let mut places: Vec<usize> = Vec::new();
    let mut e: usize = 0;
    while e < n_expert
        invariant
            e <= n_expert,
            row < out_dim,
            row == gid as int % out_dim as int,
            tok == gid as int / out_dim as int,
            0 <= tok * n_expert,
            tok * n_expert + n_expert <= n_tokens * n_expert,
            n_tokens * n_expert * out_dim <= usize::MAX,
            places@ =~= Seq::new(
                e as nat,
                |e: int| ((tok * n_expert + e) * out_dim + row) as usize,
            ),
            forall|e: int|
                0 <= e < places@.len() ==> #[trigger] places@[e] < n_tokens * n_expert * out_dim,
        decreases n_expert - e,
    {
        proof {
            let v = tok * n_expert + e;
            assert(v * out_dim + out_dim <= (n_tokens * n_expert) * out_dim) by (nonlinear_arith)
                requires
                    v + 1 <= n_tokens * n_expert,
            ;
            assert(v <= v * out_dim) by (nonlinear_arith)
                requires
                    v >= 0,
                    out_dim >= 1,
            ;
        }
        places.push((tok * n_expert + e) * out_dim + row);
        e = e + 1;
    }
    places
}

/// The row that a thread of the up and gate projections works on in turn `rr`: blocks of 128
/// rows, eight threads to a row, four turns.
pub fn gate_row(block: usize, thread: usize, rr: usize) -> (r: usize)
    requires
        block * 128 + 256 <= usize::MAX,
        thread < 256,
        rr < 4,
    ensures
        r == block * 128 + thread as int / 8 + rr * 32,
        r == row_of(block as int, thread as int / 8, rr as int),
{
    block * 128 + thread / 8 + rr * 32
}

/// The row that a thread of the down projection works on: blocks of 32 rows, eight threads to a
/// row.
pub fn down_row(block: usize, thread: usize) -> (r: usize)
    requires
        block * 32 + 32 <= usize::MAX,
        thread < 256,
    ensures
        r == block * 32 + thread as int / 8,
        r == down_row_of(block as int, thread as int / 8),
{
    block * 32 + thread / 8
}

} // verus!
