//! Both ways of choosing experts choose the same, and every pair of token and expert is worked on
//! once.
use vstd::prelude::*;

use crate::kernels::float::{gt, is_nan, key, NEG_INF};
use crate::kernels::indexer::better;
use crate::kernels::moe::{
    best_expert, chosen, expert_of, expert_place, names_experts, pair_place, pairs_of, rounds,
    six_places, stretches, sum_to, sums_rise, tile_list, tiles_to, top_experts, with_expert,
    without_expert,
};
use crate::model::{ceil_div, N_EXPERT, N_EXPERT_USED};

verus! {

/// An expert can be chosen: its score is a number above minus infinity.
pub open spec fn eligible(scores: Seq<u32>, e: int) -> bool {
    gt(scores[e], NEG_INF)
}

/// How many of the first `n` experts can be chosen.
pub open spec fn count_eligible(scores: Seq<u32>, n: nat) -> nat
    decreases n,
{
    if n == 0 {
        0
    } else {
        count_eligible(scores, (n - 1) as nat) + if eligible(scores, n - 1) {
            1nat
        } else {
            0nat
        }
    }
}

/// The place of an expert in the order from best to worst.
pub open spec fn expert_rank(scores: Seq<u32>, e: int) -> int {
    e - key(scores[e]) * 0x1_0000_0000
}

/// An expert is selected, or ranks after all that are.
pub open spec fn taken_or_worse(scores: Seq<u32>, sel: Seq<int>, c: int) -> bool {
    sel.contains(c) || forall|i: int|
        0 <= i < sel.len() ==> expert_rank(scores, #[trigger] sel[i]) < expert_rank(scores, c)
}

/// The selection holds the best of the first `n` experts, best first: higher scores before lower,
/// and of equal scores the lower expert first.
pub open spec fn best_experts(scores: Seq<u32>, n: int, sel: Seq<int>) -> bool {
    &&& forall|i: int| 0 <= i < sel.len() ==> 0 <= #[trigger] sel[i] < n && eligible(scores, sel[i])
    &&& forall|i: int, j: int|
        0 <= i < j < sel.len() ==> expert_rank(scores, #[trigger] sel[i]) < expert_rank(
            scores,
            #[trigger] sel[j],
        )
    &&& forall|c: int|
        0 <= c < n && eligible(scores, c) ==> #[trigger] taken_or_worse(scores, sel, c)
}

proof fn best_of_equal_length(scores: Seq<u32>, n: int, a: Seq<int>, b: Seq<int>, m: int)
    requires
        best_experts(scores, n, a),
        best_experts(scores, n, b),
        a.len() == b.len(),
        0 <= m <= a.len(),
    ensures
        forall|i: int| 0 <= i < m ==> a[i] == b[i],
    decreases m,
{
    if m > 0 {
        let i = m - 1;
        best_of_equal_length(scores, n, a, b, i);
        not_before(scores, n, a, b, i);
        not_before(scores, n, b, a, i);
    }
}

proof fn not_before(scores: Seq<u32>, n: int, a: Seq<int>, b: Seq<int>, i: int)
    requires
        best_experts(scores, n, a),
        best_experts(scores, n, b),
        a.len() == b.len(),
        0 <= i < a.len(),
        forall|x: int| 0 <= x < i ==> a[x] == b[x],
    ensures
        a[i] == b[i] || expert_rank(scores, a[i]) > expert_rank(scores, b[i]),
{
    assert(taken_or_worse(scores, b, a[i]));
    if b.contains(a[i]) {
        let j = choose|j: int| 0 <= j < b.len() && b[j] == a[i];
        if j < i {
            assert(a[j] == b[j]);
            assert(expert_rank(scores, a[j]) < expert_rank(scores, a[i]));
        } else if j > i {
            assert(expert_rank(scores, b[i]) < expert_rank(scores, b[j]));
        }
    }
}

/// There is only one best selection of a given size.
pub proof fn best_experts_are_unique(scores: Seq<u32>, n: int, a: Seq<int>, b: Seq<int>)
    requires
        best_experts(scores, n, a),
        best_experts(scores, n, b),
        a.len() == b.len(),
    ensures
        a == b,
{
    best_of_equal_length(scores, n, a, b, a.len() as int);
    assert(a =~= b);
}

/// The experts of a list as numbers.
pub open spec fn numbers(list: Seq<i32>) -> Seq<int> {
    list.map_values(|e: i32| e as int)
}

proof fn place_splits(scores: Seq<u32>, list: Seq<i32>, e: i32, j: int)
    requires
        0 <= j <= list.len(),
    ensures
        j <= expert_place(scores, list, e, j) <= list.len(),
        forall|i: int|
            j <= i < expert_place(scores, list, e, j) ==> !gt(
                scores[e as int],
                scores[(#[trigger] list[i]) as int],
            ),
        expert_place(scores, list, e, j) < list.len() ==> gt(
            scores[e as int],
            scores[list[expert_place(scores, list, e, j)] as int],
        ),
    decreases list.len() - j,
{
    if j < list.len() && !gt(scores[e as int], scores[list[j] as int]) {
        place_splits(scores, list, e, j + 1);
    }
}

/// Insertion selects the best experts that can be chosen: six, or all where there are fewer.
pub proof fn insertion_selects_the_best_experts(scores: Seq<u32>, n: nat)
    requires
        n <= N_EXPERT,
    ensures
        best_experts(scores, n as int, numbers(top_experts(scores, n))),
        top_experts(scores, n).len() == if count_eligible(scores, n) < N_EXPERT_USED {
            count_eligible(scores, n) as int
        } else {
            N_EXPERT_USED as int
        },
        count_eligible(scores, n) <= N_EXPERT_USED ==> forall|c: int|
            0 <= c < n && eligible(scores, c) ==> #[trigger] numbers(
                top_experts(scores, n),
            ).contains(c),
    decreases n,
{
    if n > 0 {
        let m = (n - 1) as nat;
        insertion_selects_the_best_experts(scores, m);
        insertion_step(scores, top_experts(scores, m), m);
    }
}

#[verifier::rlimit(40)]
#[verifier::spinoff_prover]
proof fn insertion_step(scores: Seq<u32>, list: Seq<i32>, m: nat)
    requires
        m < N_EXPERT,
        best_experts(scores, m as int, numbers(list)),
        list.len() == if count_eligible(scores, m) < N_EXPERT_USED {
            count_eligible(scores, m) as int
        } else {
            N_EXPERT_USED as int
        },
        count_eligible(scores, m) <= N_EXPERT_USED ==> forall|c: int|
            0 <= c < m && eligible(scores, c) ==> #[trigger] numbers(list).contains(c),
    ensures
        best_experts(scores, (m + 1) as int, numbers(with_expert(scores, list, m as i32))),
        with_expert(scores, list, m as i32).len() == if count_eligible(scores, m + 1)
            < N_EXPERT_USED {
            count_eligible(scores, m + 1) as int
        } else {
            N_EXPERT_USED as int
        },
        count_eligible(scores, m + 1) <= N_EXPERT_USED ==> forall|c: int|
            0 <= c < m + 1 && eligible(scores, c) ==> #[trigger] numbers(
                with_expert(scores, list, m as i32),
            ).contains(c),
{
    let e = m as i32;
    let old = numbers(list);
    let res = with_expert(scores, list, e);
    let new = numbers(res);
    let p = expert_place(scores, list, e, 0);
    place_splits(scores, list, e, 0);
    assert forall|i: int| 0 <= i < list.len() implies 0 <= #[trigger] list[i] < m && eligible(
        scores,
        list[i] as int,
    ) by {
        assert(old[i] == list[i]);
    }
    if !eligible(scores, m as int) {
        if p < list.len() {
            assert(eligible(scores, list[p] as int));
        }
        assert(res == list);
        assert forall|c: int| 0 <= c < m + 1 && eligible(scores, c) implies #[trigger]
        taken_or_worse(scores, new, c) by {
            assert(taken_or_worse(scores, old, c));
        }
    } else {
        assert forall|i: int| 0 <= i < p implies expert_rank(scores, (#[trigger] list[i]) as int)
            < expert_rank(scores, m as int) by {
            assert(!gt(scores[m as int], scores[list[i] as int]));
        }
        assert forall|i: int| p <= i < list.len() implies expert_rank(scores, m as int)
            < expert_rank(scores, (#[trigger] list[i]) as int) by {
            assert(old[p] == list[p] && old[i] == list[i]);
            if p < i {
                assert(expert_rank(scores, old[p]) < expert_rank(scores, old[i]));
            }
        }
        let len = list.len() as int;
        if p == len && len >= N_EXPERT_USED {
            assert(res == list);
            assert forall|c: int| 0 <= c < m + 1 && eligible(scores, c) implies #[trigger]
            taken_or_worse(scores, new, c) by {
                if c < m {
                    assert(taken_or_worse(scores, old, c));
                } else {
                    assert forall|i: int| 0 <= i < new.len() implies expert_rank(
                        scores,
                        #[trigger] new[i],
                    ) < expert_rank(scores, c) by {
                        assert(new[i] == list[i]);
                    }
                }
            }
        } else {
            let longer = list.insert(p, e);
            assert forall|i: int| 0 <= i < new.len() implies #[trigger] new[i] == (if i < p {
                old[i]
            } else if i == p {
                m as int
            } else {
                old[i - 1]
            }) by {
                assert(res[i] == longer[i]);
            }
            assert forall|i: int, j: int| 0 <= i < j < new.len() implies expert_rank(
                scores,
                #[trigger] new[i],
            ) < expert_rank(scores, #[trigger] new[j]) by {
                if i < p && p < j {
                    assert(old[i] == list[i] && old[j - 1] == list[j - 1]);
                } else if j < p {
                    assert(expert_rank(scores, old[i]) < expert_rank(scores, old[j]));
                } else if j == p {
                    assert(old[i] == list[i]);
                } else if i == p {
                    assert(old[j - 1] == list[j - 1]);
                } else {
                    assert(expert_rank(scores, old[i - 1]) < expert_rank(scores, old[j - 1]));
                }
            }
            assert forall|c: int| 0 <= c < m + 1 && eligible(scores, c) implies #[trigger]
            taken_or_worse(scores, new, c) by {
                if c == m {
                    assert(new[p] == m);
                } else {
                    assert(taken_or_worse(scores, old, c));
                    if old.contains(c) {
                        let x = choose|x: int| 0 <= x < old.len() && old[x] == c;
                        if x < p {
                            assert(new[x] == c);
                        } else if x + 1 < new.len() {
                            assert(new[x + 1] == c);
                        } else {
                            assert forall|i: int| 0 <= i < new.len() implies expert_rank(
                                scores,
                                #[trigger] new[i],
                            ) < expert_rank(scores, c) by {
                                assert(list[x] == old[x]);
                                if i < p {
                                    assert(expert_rank(scores, old[i]) < expert_rank(
                                        scores,
                                        old[x],
                                    ));
                                } else if i > p {
                                    assert(expert_rank(scores, old[i - 1]) < expert_rank(
                                        scores,
                                        old[x],
                                    ));
                                }
                            }
                        }
                    } else {
                        assert(count_eligible(scores, m) > N_EXPERT_USED);
                        assert(p < len);
                        assert forall|i: int| 0 <= i < new.len() implies expert_rank(
                            scores,
                            #[trigger] new[i],
                        ) < expert_rank(scores, c) by {
                            assert(old[p] == list[p]);
                            if i < p {
                                assert(expert_rank(scores, old[i]) < expert_rank(scores, c));
                            } else if i > p {
                                assert(expert_rank(scores, old[i - 1]) < expert_rank(scores, c));
                            } else {
                                assert(expert_rank(scores, old[p]) < expert_rank(scores, c));
                            }
                        }
                    }
                }
            }
            if count_eligible(scores, m + 1) <= N_EXPERT_USED {
                assert forall|c: int| 0 <= c < m + 1 && eligible(scores, c) implies #[trigger]
                new.contains(c) by {
                    if c == m {
                        assert(new[p] == m);
                    } else {
                        assert(old.contains(c));
                        let x = choose|x: int| 0 <= x < old.len() && old[x] == c;
                        if x < p {
                            assert(new[x] == c);
                        } else {
                            assert(new[x + 1] == c);
                        }
                    }
                }
            }
        }
    }
}

proof fn best_is_best(scores: Seq<u32>, n: nat)
    requires
        n <= N_EXPERT,
    ensures
        ({
            let b = best_expert(scores, n);
            &&& !is_nan(b.0)
            &&& b.1 < n && scores[b.1 as int] == b.0 || b == (NEG_INF, u32::MAX)
            &&& forall|c: int|
                0 <= c < n && !is_nan(#[trigger] scores[c]) ==> b.1 < n && (c == b.1 || expert_rank(
                    scores,
                    b.1 as int,
                ) < expert_rank(scores, c))
        }),
    decreases n,
{
    if n > 0 {
        let m = (n - 1) as nat;
        best_is_best(scores, m);
        let b = best_expert(scores, m);
        let e = m as u32;
        assert(!is_nan(scores[m as int]) && b.1 == u32::MAX ==> better(
            scores[m as int],
            e,
            b.0,
            b.1,
        ));
    }
}

proof fn some_eligible(scores: Seq<u32>, n: nat)
    requires
        count_eligible(scores, n) > 0,
    ensures
        exists|c: int| 0 <= c < n && #[trigger] eligible(scores, c),
    decreases n,
{
    if !eligible(scores, n - 1) {
        some_eligible(scores, (n - 1) as nat);
    }
}

proof fn one_fewer(scores: Seq<u32>, e: u32, n: nat)
    requires
        e < scores.len(),
        n <= scores.len(),
        eligible(scores, e as int),
    ensures
        count_eligible(without_expert(scores, e), n) == count_eligible(scores, n) - if e < n {
            1int
        } else {
            0
        },
    decreases n,
{
    if n > 0 {
        one_fewer(scores, e, (n - 1) as nat);
        let w = without_expert(scores, e);
        assert(e != n - 1 ==> w[n - 1] == scores[n - 1]);
    }
}

/// Rounds select the best experts, as long as there are any that can be chosen.
pub proof fn rounds_select_the_best_experts(scores: Seq<u32>, k: nat)
    requires
        scores.len() == N_EXPERT,
        count_eligible(scores, N_EXPERT as nat) >= k,
    ensures
        rounds(scores, k).len() == k,
        best_experts(scores, N_EXPERT as int, rounds(scores, k).map_values(|e: u32| e as int)),
    decreases k,
{
    if k > 0 {
        let n = N_EXPERT as nat;
        let e = best_expert(scores, n).1;
        best_is_best(scores, n);
        some_eligible(scores, n);
        let c = choose|c: int| 0 <= c < n && #[trigger] eligible(scores, c);
        assert(!is_nan(scores[c]));
        assert(e < n);
        assert(eligible(scores, e as int)) by {
            if e != c {
                assert(expert_rank(scores, e as int) < expert_rank(scores, c));
            }
        }
        let w = without_expert(scores, e);
        one_fewer(scores, e, n);
        rounds_select_the_best_experts(w, (k - 1) as nat);
        let rest = rounds(w, (k - 1) as nat);
        let tail = rest.map_values(|e: u32| e as int);
        let sel = rounds(scores, k).map_values(|e: u32| e as int);
        assert(sel[0] == e);
        assert forall|i: int| 0 < i < sel.len() implies #[trigger] sel[i] == tail[i - 1] by {
            assert(rounds(scores, k)[i] == rest[i - 1]);
        }
        assert forall|c: int| 0 <= c < n && c != e implies #[trigger] w[c] == scores[c] by {}
        assert(!eligible(w, e as int));
        assert forall|i: int| 0 <= i < sel.len() implies 0 <= #[trigger] sel[i] < n && eligible(
            scores,
            sel[i],
        ) && (i > 0 ==> sel[i] != e) by {
            if i > 0 {
                assert(eligible(w, tail[i - 1]));
            }
        }
        assert forall|i: int, j: int| 0 <= i < j < sel.len() implies expert_rank(
            scores,
            #[trigger] sel[i],
        ) < expert_rank(scores, #[trigger] sel[j]) by {
            if i > 0 {
                assert(expert_rank(w, tail[i - 1]) < expert_rank(w, tail[j - 1]));
            } else {
                assert(!is_nan(scores[sel[j]]));
            }
        }
        assert forall|c: int| 0 <= c < n && eligible(scores, c) implies #[trigger] taken_or_worse(
            scores,
            sel,
            c,
        ) by {
            if c == e {
                assert(sel[0] == c);
            } else {
                assert(eligible(w, c));
                assert(taken_or_worse(w, tail, c));
                if tail.contains(c) {
                    let x = choose|x: int| 0 <= x < tail.len() && tail[x] == c;
                    assert(sel[x + 1] == c);
                } else {
                    assert forall|i: int| 0 <= i < sel.len() implies expert_rank(
                        scores,
                        #[trigger] sel[i],
                    ) < expert_rank(scores, c) by {
                        if i > 0 {
                            assert(expert_rank(w, tail[i - 1]) < expert_rank(w, c));
                        } else {
                            assert(!is_nan(scores[c]));
                        }
                    }
                }
            }
        }
    }
}

/// Insertion and rounds select the same experts in the same order, wherever six experts have a
/// score above minus infinity.
pub proof fn expert_selections_agree(scores: Seq<u32>)
    requires
        scores.len() == N_EXPERT,
        count_eligible(scores, N_EXPERT as nat) >= N_EXPERT_USED,
    ensures
        numbers(top_experts(scores, N_EXPERT as nat)) == rounds(
            scores,
            N_EXPERT_USED as nat,
        ).map_values(|e: u32| e as int),
        top_experts(scores, N_EXPERT as nat).len() == N_EXPERT_USED,
{
    insertion_selects_the_best_experts(scores, N_EXPERT as nat);
    rounds_select_the_best_experts(scores, N_EXPERT_USED as nat);
    best_experts_are_unique(
        scores,
        N_EXPERT as int,
        numbers(top_experts(scores, N_EXPERT as nat)),
        rounds(scores, N_EXPERT_USED as nat).map_values(|e: u32| e as int),
    );
}

/// Both routers select the same experts, wherever six experts have a score above minus infinity.
pub proof fn routers_agree(scores: Seq<u32>)
    requires
        scores.len() == N_EXPERT,
        count_eligible(scores, N_EXPERT as nat) >= N_EXPERT_USED,
    ensures
        six_places(top_experts(scores, N_EXPERT as nat)) == rounds(
            scores,
            N_EXPERT_USED as nat,
        ).map_values(|e: u32| chosen(e)),
{
    expert_selections_agree(scores);
    rounds_select_the_best_experts(scores, N_EXPERT_USED as nat);
    let top = top_experts(scores, N_EXPERT as nat);
    let r = rounds(scores, N_EXPERT_USED as nat);
    let as_ints = r.map_values(|e: u32| e as int);
    let want = r.map_values(|e: u32| chosen(e));
    assert forall|i: int| 0 <= i < 6 implies #[trigger] six_places(top)[i] == want[i] by {
        assert(numbers(top)[i] == as_ints[i]);
        assert(0 <= as_ints[i] < N_EXPERT);
    }
    assert(six_places(top) =~= want);
}

/// The counts are those of the selection.
pub open spec fn counts_of(selected: Seq<i32>, counts: Seq<u32>) -> bool {
    &&& counts.len() == N_EXPERT
    &&& forall|e: int|
        0 <= e < N_EXPERT ==> #[trigger] counts[e] == pairs_of(selected, selected.len(), e)
}

/// The pairs of the first `k` experts among the first `n` pairs.
spec fn pairs_below(selected: Seq<i32>, n: nat, k: nat) -> nat
    decreases k,
{
    if k == 0 {
        0
    } else {
        pairs_below(selected, n, (k - 1) as nat) + pairs_of(selected, n, k - 1)
    }
}

proof fn one_more_pair(selected: Seq<i32>, n: nat, k: nat)
    requires
        0 < n <= selected.len(),
    ensures
        pairs_below(selected, n, k) == pairs_below(selected, (n - 1) as nat, k) + if expert_of(
            selected[n - 1],
        ) < k {
            1nat
        } else {
            0nat
        },
    decreases k,
{
    if k > 0 {
        one_more_pair(selected, n, (k - 1) as nat);
    }
}

proof fn all_pairs(selected: Seq<i32>, n: nat)
    requires
        n <= selected.len(),
        names_experts(selected),
    ensures
        pairs_below(selected, n, N_EXPERT as nat) == n,
    decreases n,
{
    if n > 0 {
        all_pairs(selected, (n - 1) as nat);
        one_more_pair(selected, n, N_EXPERT as nat);
        assert(selected[n - 1] < N_EXPERT);
    } else {
        no_pairs(selected, N_EXPERT as nat);
    }
}

proof fn no_pairs(selected: Seq<i32>, k: nat)
    ensures
        pairs_below(selected, 0, k) == 0,
    decreases k,
{
    if k > 0 {
        no_pairs(selected, (k - 1) as nat);
    }
}

proof fn sums_are_pairs(selected: Seq<i32>, counts: Seq<u32>, k: nat)
    requires
        counts_of(selected, counts),
        k <= N_EXPERT,
    ensures
        sum_to(counts, k) == pairs_below(selected, selected.len(), k),
    decreases k,
{
    if k > 0 {
        sums_are_pairs(selected, counts, (k - 1) as nat);
    }
}

/// The counts of all experts add up to the number of pairs.
pub proof fn counts_add_up(selected: Seq<i32>, counts: Seq<u32>)
    requires
        names_experts(selected),
        counts_of(selected, counts),
    ensures
        sum_to(counts, N_EXPERT as nat) == selected.len(),
{
    sums_are_pairs(selected, counts, N_EXPERT as nat);
    all_pairs(selected, selected.len());
}

/// The starts that the counts give leave room for the pairs of every expert.
pub proof fn starts_leave_room(selected: Seq<i32>, counts: Seq<u32>, starts: Seq<u32>)
    requires
        names_experts(selected),
        selected.len() <= u32::MAX,
        counts_of(selected, counts),
        starts == Seq::new(N_EXPERT as nat, |e: int| sum_to(counts, e as nat) as u32),
    ensures
        stretches(selected, starts, selected.len() as int),
        forall|e: int| 0 <= e < N_EXPERT ==> #[trigger] starts[e] == sum_to(counts, e as nat),
{
    counts_add_up(selected, counts);
    let n = selected.len();
    assert forall|e: int| 0 <= e < N_EXPERT implies #[trigger] starts[e] == sum_to(counts, e as nat)
        && starts[e] + pairs_of(selected, n, e) <= n by {
        sums_rise(counts, e as nat, N_EXPERT as nat);
        sums_rise(counts, (e + 1) as nat, N_EXPERT as nat);
        assert(counts[e] == pairs_of(selected, n, e));
    }
    assert forall|a: int, b: int| 0 <= a < b < N_EXPERT implies #[trigger] starts[a] + pairs_of(
        selected,
        n,
        a,
    ) <= #[trigger] starts[b] by {
        sums_rise(counts, (a + 1) as nat, b as nat);
        assert(counts[a] == pairs_of(selected, n, a));
    }
}

proof fn pair_with_rank(selected: Seq<i32>, n: nat, e: int, k: nat) -> (p: int)
    requires
        n <= selected.len(),
        k < pairs_of(selected, n, e),
    ensures
        0 <= p < n,
        expert_of(selected[p]) == e,
        pairs_of(selected, p as nat, e) == k,
    decreases n,
{
    if expert_of(selected[n - 1]) == e && pairs_of(selected, (n - 1) as nat, e) == k {
        n - 1
    } else {
        pair_with_rank(selected, (n - 1) as nat, e, k)
    }
}

/// In sorted order the stretch of each expert holds its pairs and no others, in their own order;
/// and every pair stands in the stretch of its expert.
pub proof fn pairs_are_grouped_by_expert(
    selected: Seq<i32>,
    counts: Seq<u32>,
    starts: Seq<u32>,
    sorted: Seq<u32>,
)
    requires
        names_experts(selected),
        selected.len() <= u32::MAX,
        counts_of(selected, counts),
        starts == Seq::new(N_EXPERT as nat, |e: int| sum_to(counts, e as nat) as u32),
        sorted.len() == selected.len(),
        forall|p: int|
            0 <= p < selected.len() ==> sorted[#[trigger] pair_place(selected, starts, p)] == p,
    ensures
        forall|e: int, x: int|
            0 <= e < N_EXPERT && sum_to(counts, e as nat) <= x < sum_to(counts, (e + 1) as nat)
                ==> #[trigger] belongs(selected, sorted, e, x),
        forall|e: int, x: int, y: int|
            0 <= e < N_EXPERT && sum_to(counts, e as nat) <= x < y < sum_to(counts, (e + 1) as nat)
                ==> #[trigger] in_order(selected, sorted, e, x, y),
        forall|p: int|
            0 <= p < selected.len() ==> 0 <= #[trigger] pair_place(selected, starts, p)
                < sorted.len(),
{
    starts_leave_room(selected, counts, starts);
    let n = selected.len();
    assert forall|p: int| 0 <= p < n implies 0 <= #[trigger] pair_place(selected, starts, p)
        < sorted.len() by {
        let e = expert_of(selected[p]);
        assert(selected[p] < N_EXPERT);
        assert(starts[e] + pairs_of(selected, n, e) <= n);
        fewer_before(selected, (p + 1) as nat, n, e);
    }
    assert forall|e: int, x: int|
        0 <= e < N_EXPERT && sum_to(counts, e as nat) <= x < sum_to(
            counts,
            (e + 1) as nat,
        ) implies #[trigger] belongs(selected, sorted, e, x) by {
        stands_at(selected, counts, starts, sorted, e, x);
    }
    assert forall|e: int, x: int, y: int|
        0 <= e < N_EXPERT && sum_to(counts, e as nat) <= x < y < sum_to(
            counts,
            (e + 1) as nat,
        ) implies #[trigger] in_order(selected, sorted, e, x, y) by {
        pairs_in_order(selected, counts, starts, sorted, e, x, y);
    }
}

/// At places `x` and `y` stand two pairs of expert `e`, in their own order.
pub open spec fn in_order(selected: Seq<i32>, sorted: Seq<u32>, e: int, x: int, y: int) -> bool {
    belongs(selected, sorted, e, x) && belongs(selected, sorted, e, y) && sorted[x] < sorted[y]
}

proof fn pairs_in_order(
    selected: Seq<i32>,
    counts: Seq<u32>,
    starts: Seq<u32>,
    sorted: Seq<u32>,
    e: int,
    x: int,
    y: int,
)
    requires
        names_experts(selected),
        selected.len() <= u32::MAX,
        counts_of(selected, counts),
        starts == Seq::new(N_EXPERT as nat, |e: int| sum_to(counts, e as nat) as u32),
        sorted.len() == selected.len(),
        forall|p: int|
            0 <= p < selected.len() ==> sorted[#[trigger] pair_place(selected, starts, p)] == p,
        0 <= e < N_EXPERT,
        sum_to(counts, e as nat) <= x < y < sum_to(counts, (e + 1) as nat),
    ensures
        in_order(selected, sorted, e, x, y),
{
    starts_leave_room(selected, counts, starts);
    stands_at(selected, counts, starts, sorted, e, x);
    stands_at(selected, counts, starts, sorted, e, y);
    if sorted[x] >= sorted[y] {
        fewer_before(selected, sorted[y] as nat, sorted[x] as nat, e);
    }
}

/// At place `x` stands a pair of expert `e`.
pub open spec fn belongs(selected: Seq<i32>, sorted: Seq<u32>, e: int, x: int) -> bool {
    sorted[x] < selected.len() && expert_of(selected[sorted[x] as int]) == e
}

proof fn fewer_before(selected: Seq<i32>, a: nat, b: nat, e: int)
    requires
        a <= b,
    ensures
        pairs_of(selected, a, e) <= pairs_of(selected, b, e),
    decreases b,
{
    if a < b {
        fewer_before(selected, a, (b - 1) as nat, e);
    }
}

proof fn stands_at(
    selected: Seq<i32>,
    counts: Seq<u32>,
    starts: Seq<u32>,
    sorted: Seq<u32>,
    e: int,
    x: int,
)
    requires
        counts_of(selected, counts),
        forall|e: int| 0 <= e < N_EXPERT ==> #[trigger] starts[e] == sum_to(counts, e as nat),
        forall|p: int|
            0 <= p < selected.len() ==> sorted[#[trigger] pair_place(selected, starts, p)] == p,
        0 <= e < N_EXPERT,
        sum_to(counts, e as nat) <= x < sum_to(counts, (e + 1) as nat),
    ensures
        belongs(selected, sorted, e, x),
        pairs_of(selected, sorted[x] as nat, e) == x - sum_to(counts, e as nat),
{
    let n = selected.len();
    assert(counts[e] == pairs_of(selected, n, e));
    let p = pair_with_rank(selected, n, e, (x - sum_to(counts, e as nat)) as nat);
    assert(starts[e] == sum_to(counts, e as nat));
    assert(pair_place(selected, starts, p) == x);
}

/// There are as many tiles as were counted, and each expert's tiles follow one another from its
/// first pair on, in steps of `block_m`.
pub proof fn tiles_stand_in_order(counts: Seq<u32>, block_m: int, n: nat, e: int, t: int)
    requires
        block_m > 0,
        0 <= e < n,
        0 <= t < ceil_div(counts[e] as int, block_m),
    ensures
        tile_list(counts, block_m, n).len() == tiles_to(counts, block_m, n),
        tiles_to(counts, block_m, e as nat) + t < tiles_to(counts, block_m, n),
        tile_list(counts, block_m, n)[tiles_to(counts, block_m, e as nat) + t] == (
            e as u32,
            (t * block_m) as u32,
        ),
    decreases n,
{
    tile_count(counts, block_m, n);
    let m = (n - 1) as nat;
    tile_count(counts, block_m, m);
    crate::engine::grid_covers_exactly(counts[m as int] as int, block_m);
    if e < m {
        tiles_stand_in_order(counts, block_m, m, e, t);
    }
}

proof fn tile_count(counts: Seq<u32>, block_m: int, n: nat)
    requires
        block_m > 0,
    ensures
        tile_list(counts, block_m, n).len() == tiles_to(counts, block_m, n),
    decreases n,
{
    if n > 0 {
        tile_count(counts, block_m, (n - 1) as nat);
        crate::engine::grid_covers_exactly(counts[n - 1] as int, block_m);
    }
}

/// Every pair of an expert lies in one of its tiles, and in no other.
pub proof fn tiles_cover_every_pair(count: u32, block_m: int, i: int)
    requires
        block_m > 0,
        0 <= i < count,
    ensures
        0 <= i / block_m < ceil_div(count as int, block_m),
        (i / block_m) * block_m <= i < (i / block_m) * block_m + block_m,
        forall|t: int|
            #[trigger] (t * block_m) <= i < t * block_m + block_m ==> t == i / block_m,
{
    vstd::arithmetic::div_mod::lemma_fundamental_div_mod(i, block_m);
    let q = i / block_m;
    assert(block_m * q == q * block_m) by (nonlinear_arith);
    assert(q >= 0) by (nonlinear_arith)
        requires
            i >= 0,
            block_m > 0,
            q == i / block_m,
    ;
    crate::engine::grid_covers_exactly(count as int, block_m);
    let g = ceil_div(count as int, block_m);
    if q >= g {
        assert(q * block_m >= g * block_m) by (nonlinear_arith)
            requires
                q >= g,
                block_m > 0,
        ;
    }
    assert forall|t: int|
        #[trigger] (t * block_m) <= i < t * block_m + block_m implies t == q by {
        if t < q {
            assert(t * block_m + block_m <= q * block_m) by (nonlinear_arith)
                requires
                    t + 1 <= q,
                    block_m > 0,
            ;
        } else if t > q {
            assert(q * block_m + block_m <= t * block_m) by (nonlinear_arith)
                requires
                    q + 1 <= t,
                    block_m > 0,
            ;
        }
    }
}

/// Every row of the up and gate projections is the work of one group of threads in one turn.
pub proof fn gate_rows_are_covered_once(row: int)
    requires
        row >= 0,
    ensures
        row == row_of(row / 128, row % 32, (row % 128) / 32),
        row == (row / 128) * 128 + row % 32 + ((row % 128) / 32) * 32,
        (row % 128) / 32 < 4,
        forall|block: int, lane: int, rr: int|
            0 <= lane < 32 && 0 <= rr < 4 && row == #[trigger] row_of(block, lane, rr) ==> block
                == row / 128 && lane == row % 32 && rr == (row % 128) / 32,
{
}

/// The row of a group of threads in a turn.
pub open spec fn row_of(block: int, lane: int, rr: int) -> int {
    block * 128 + lane + rr * 32
}

/// Every row of the down projection is the work of one group of threads.
pub proof fn down_rows_are_covered_once(row: int)
    requires
        row >= 0,
    ensures
        row == down_row_of(row / 32, row % 32),
        forall|block: int, lane: int|
            0 <= lane < 32 && row == #[trigger] down_row_of(block, lane) ==> block == row / 32
                && lane == row % 32,
{
}

/// The row of the down projection of a group of threads.
pub open spec fn down_row_of(block: int, lane: int) -> int {
    block * 32 + lane
}

/// Every block of weights that the projections read lies inside the tensor.
pub proof fn weight_blocks_lie_inside(
    expert: int,
    n_experts: int,
    row: int,
    rows: int,
    b: int,
    blocks: int,
    block_bytes: int,
)
    requires
        0 <= expert < n_experts,
        0 <= row < rows,
        0 <= b < blocks,
        block_bytes > 0,
    ensures
        expert * (rows * (blocks * block_bytes)) + row * (blocks * block_bytes) + b * block_bytes
            + block_bytes <= n_experts * (rows * (blocks * block_bytes)),
{
    let row_bytes = blocks * block_bytes;
    let expert_bytes = rows * row_bytes;
    assert(b * block_bytes + block_bytes <= row_bytes) by (nonlinear_arith)
        requires
            b + 1 <= blocks,
            block_bytes > 0,
            row_bytes == blocks * block_bytes,
    ;
    assert(row_bytes >= 0) by (nonlinear_arith)
        requires
            blocks > 0,
            block_bytes > 0,
            row_bytes == blocks * block_bytes,
    ;
    assert(row * row_bytes + row_bytes <= expert_bytes) by (nonlinear_arith)
        requires
            row + 1 <= rows,
            row_bytes >= 0,
            expert_bytes == rows * row_bytes,
    ;
    assert(expert_bytes >= 0) by (nonlinear_arith)
        requires
            rows > 0,
            row_bytes >= 0,
            expert_bytes == rows * row_bytes,
    ;
    assert(expert * expert_bytes + expert_bytes <= n_experts * expert_bytes) by (nonlinear_arith)
        requires
            expert + 1 <= n_experts,
            expert_bytes >= 0,
    ;
}

} // verus!
