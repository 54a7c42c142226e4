//! All ways of choosing rows choose the same.
use vstd::prelude::*;
use vstd::seq_lib::*;
use vstd::set_lib::*;

use crate::kernels::bitonic::{all_ranked, network, sorted, Ranked};
use crate::kernels::bitonic_laws::network_sorts;
use crate::kernels::float::{is_nan, NEG_INF};
use crate::kernels::indexer::{
    as_rising, best_rows, better, candidates_of, insert_place, insert_row, inserted, padded,
    rising_values, score_rank, Rising, Scored,
};
use crate::pow2::is_pow2;

verus! {

/// No injection goes from `n` places to fewer.
pub(crate) proof fn pigeonhole(f: spec_fn(int) -> int, n: int, m: int)
    requires
        0 <= n,
        0 <= m,
        forall|i: int| 0 <= i < n ==> 0 <= #[trigger] f(i) < m,
        forall|i: int, j: int| 0 <= i < j < n ==> #[trigger] f(i) != #[trigger] f(j),
    ensures
        n <= m,
{
    let x = set_int_range(0, n);
    let y = x.map(f);
    lemma_int_range(0, n);
    lemma_int_range(0, m);
    lemma_map_size(x, y, f);
    assert(y.subset_of(set_int_range(0, m)));
    lemma_len_subset(y, set_int_range(0, m));
}

/// An item that stands at two places occurs at least twice.
proof fn occurs_twice<T>(s: Seq<T>, i: int, j: int)
    requires
        0 <= i < j < s.len(),
        s[i] == s[j],
    ensures
        s.to_multiset().count(s[i]) >= 2,
{
    broadcast use vstd::seq_lib::group_to_multiset_ensures, vstd::multiset::group_multiset_axioms;

    let x = s[i];
    let r = s.remove(i);
    assert(r[j - 1] == x);
    assert(r.contains(x));
    assert(r.to_multiset().count(x) > 0);
    assert(s.contains(x));
    assert(r.to_multiset() == s.to_multiset().remove(x));
}

/// An item that stands at one place only occurs once.
proof fn occurs_once<T>(s: Seq<T>, i: int)
    requires
        0 <= i < s.len(),
        forall|j: int| 0 <= j < s.len() && j != i ==> #[trigger] s[j] != s[i],
    ensures
        s.to_multiset().count(s[i]) == 1,
{
    broadcast use vstd::seq_lib::group_to_multiset_ensures, vstd::multiset::group_multiset_axioms;

    let x = s[i];
    let r = s.remove(i);
    assert forall|j: int| 0 <= j < r.len() implies #[trigger] r[j] != x by {
        if j < i {
            assert(r[j] == s[j]);
        } else {
            assert(r[j] == s[j + 1]);
        }
    }
    assert(!r.contains(x));
    assert(r.to_multiset().count(x) == 0);
    assert(s.contains(x));
    assert(s.to_multiset().count(x) > 0);
    assert(r.to_multiset() == s.to_multiset().remove(x));
}

/// The item is a row that exists.
pub open spec fn is_real(s: Scored, n_comp: int) -> bool {
    s.row < n_comp
}

/// Scores of rows below `n_comp`, each row at most once, and fillers below all of them.
pub open spec fn pool(items: Seq<Scored>, n_comp: int) -> bool {
    &&& all_ranked(items)
    &&& 0 <= n_comp <= u32::MAX
    &&& forall|i: int|
        0 <= i < items.len() ==> is_real(#[trigger] items[i], n_comp) || items[i].score == NEG_INF
    &&& forall|i: int, j: int|
        0 <= i < j < items.len() && is_real(items[i], n_comp) ==> (#[trigger] items[i]).row != (
        #[trigger] items[j]).row
}

/// A filler ranks after every row that exists.
proof fn fillers_come_last(a: Scored, b: Scored, n_comp: int)
    requires
        a.ranked(),
        is_real(a, n_comp),
        !is_real(b, n_comp),
        b.score == NEG_INF,
    ensures
        a.rank() < b.rank(),
{
}

/// Items of different rows have different ranks.
proof fn ranks_differ(a: Scored, b: Scored)
    requires
        a.rank() == b.rank(),
    ensures
        a.row == b.row,
{
}

/// Among sorted items every one comes from the pool; rows that exist come before fillers, each
/// once and by rank; and every row that is not among the first `k` ranks after all of them.
proof fn sorted_pool(items: Seq<Scored>, n_comp: int, k: int)
    requires
        is_pow2(items.len() as int),
        pool(items, n_comp),
        0 <= k <= items.len(),
    ensures
        network(items).len() == items.len(),
        forall|i: int| 0 <= i < items.len() ==> items.contains(#[trigger] network(items)[i]),
        forall|i: int, j: int|
            0 <= i < j < items.len() && is_real(network(items)[j], n_comp) ==> is_real(
                #[trigger] network(items)[i],
                n_comp,
            ) && network(items)[i].rank() < (#[trigger] network(items)[j]).rank(),
        forall|c: int|
            0 <= c < items.len() && is_real(items[c], n_comp) ==> (exists|q: int|
                0 <= q < items.len() && #[trigger] network(items)[q] == #[trigger] items[c]),
{
    let t = network(items);
    network_sorts(items);
    crate::kernels::bitonic_laws::network_permutes(items);
    broadcast use vstd::seq_lib::group_to_multiset_ensures;

    assert forall|i: int| 0 <= i < t.len() implies items.contains(#[trigger] t[i]) by {
        assert(t.contains(t[i]));
        assert(t.to_multiset().count(t[i]) > 0);
    }
    assert forall|c: int| 0 <= c < items.len() && is_real(items[c], n_comp) implies (exists|q: int|
        0 <= q < items.len() && #[trigger] t[q] == #[trigger] items[c]) by {
        assert(items.contains(items[c]));
        assert(items.to_multiset().count(items[c]) > 0);
        assert(t.contains(items[c]));
    }
    assert forall|i: int, j: int|
        0 <= i < j < items.len() && is_real(t[j], n_comp) implies is_real(#[trigger] t[i], n_comp)
        && t[i].rank() < (#[trigger] t[j]).rank() by {
        assert(t[i].rank() <= t[j].rank());
        assert(items.contains(t[i]) && items.contains(t[j]));
        if !is_real(t[i], n_comp) {
            fillers_come_last(t[j], t[i], n_comp);
        }
        if t[i].rank() == t[j].rank() {
            ranks_differ(t[i], t[j]);
            same_row_is_same_item(items, n_comp, t[i], t[j]);
            occurs_twice(t, i, j);
            let c = choose|c: int| 0 <= c < items.len() && items[c] == t[i];
            assert forall|d: int| 0 <= d < items.len() && d != c implies #[trigger] items[d]
                != items[c] by {
                if d < c {
                    if items[d] == items[c] {
                        assert(is_real(items[d], n_comp));
                    }
                } else {
                    assert(is_real(items[c], n_comp));
                }
            }
            occurs_once(items, c);
        }
    }
}

/// Two items of one row that exists are the same item.
proof fn same_row_is_same_item(items: Seq<Scored>, n_comp: int, a: Scored, b: Scored)
    requires
        pool(items, n_comp),
        items.contains(a),
        items.contains(b),
        is_real(a, n_comp),
        a.row == b.row,
    ensures
        a == b,
{
    let i = choose|i: int| 0 <= i < items.len() && items[i] == a;
    let j = choose|j: int| 0 <= j < items.len() && items[j] == b;
    if i < j {
        assert(items[i].row != items[j].row);
    } else if j < i {
        assert(is_real(items[j], n_comp));
        assert(items[j].row != items[i].row);
    }
}

/// The rank of a row among the scores from `base` on.
pub open spec fn rank_at(scores: Seq<u32>, base: int, row: int) -> int {
    score_rank(scores[base + row], row as u32)
}

/// A row is selected, or ranks after all that are.
pub open spec fn chosen_or_worse(
    scores: Seq<u32>,
    base: int,
    sel: Seq<u32>,
    c: int,
) -> bool {
    sel.contains(c as u32) || forall|i: int|
        0 <= i < sel.len() ==> rank_at(scores, base, (#[trigger] sel[i]) as int) < rank_at(
            scores,
            base,
            c,
        )
}

/// The selection holds the best of the `n` rows whose scores start at `base`, best first: higher
/// scores before lower, and of equal scores the lower row first.
pub open spec fn is_best(scores: Seq<u32>, base: int, n: int, sel: Seq<u32>) -> bool {
    &&& forall|i: int| 0 <= i < sel.len() ==> #[trigger] sel[i] < n
    &&& forall|i: int, j: int|
        0 <= i < j < sel.len() ==> rank_at(scores, base, (#[trigger] sel[i]) as int) < rank_at(
            scores,
            base,
            (#[trigger] sel[j]) as int,
        )
    &&& forall|c: int| 0 <= c < n ==> #[trigger] chosen_or_worse(scores, base, sel, c)
}

/// All `n` scores from `base` on are numbers.
pub open spec fn all_numbers(scores: Seq<u32>, base: int, n: int) -> bool {
    forall|i: int| 0 <= i < n ==> !is_nan(#[trigger] scores[base + i])
}

/// There is only one best selection of a given size.
pub proof fn best_is_unique(
    scores: Seq<u32>,
    base: int,
    n: int,
    a: Seq<u32>,
    b: Seq<u32>,
)
    requires
        is_best(scores, base, n, a),
        is_best(scores, base, n, b),
        a.len() == b.len(),
    ensures
        a == b,
{
    best_prefix(scores, base, n, a, b, a.len() as int);
    assert(a =~= b);
}

proof fn best_prefix(
    scores: Seq<u32>,
    base: int,
    n: int,
    a: Seq<u32>,
    b: Seq<u32>,
    m: int,
)
    requires
        is_best(scores, base, n, a),
        is_best(scores, base, n, b),
        a.len() == b.len(),
        0 <= m <= a.len(),
    ensures
        forall|i: int| 0 <= i < m ==> a[i] == b[i],
    decreases m,
{
    if m > 0 {
        let i = m - 1;
        best_prefix(scores, base, n, a, b, i);
        best_comes_first(scores, base, n, a, b, i);
        best_comes_first(scores, base, n, b, a, i);
    }
}

proof fn best_comes_first(
    scores: Seq<u32>,
    base: int,
    n: int,
    a: Seq<u32>,
    b: Seq<u32>,
    i: int,
)
    requires
        is_best(scores, base, n, a),
        is_best(scores, base, n, b),
        a.len() == b.len(),
        0 <= i < a.len(),
        forall|x: int| 0 <= x < i ==> a[x] == b[x],
    ensures
        rank_at(scores, base, a[i] as int) >= rank_at(scores, base, b[i] as int),
{
    assert(chosen_or_worse(scores, base, b, a[i] as int));
    if b.contains(a[i]) {
        let j = choose|j: int| 0 <= j < b.len() && b[j] == a[i];
        if j < i {
            assert(a[j] == b[j]);
            assert(rank_at(scores, base, a[j] as int) < rank_at(scores, base, a[i] as int));
        } else if j > i {
            assert(rank_at(scores, base, b[i] as int) < rank_at(scores, base, b[j] as int));
        }
    }
}

/// A row is in the set, or the set is full of better ones.
pub open spec fn kept_or_beaten(
    scores: Seq<u32>,
    base: int,
    n_comp: int,
    set: Seq<u32>,
    c: int,
) -> bool {
    set.contains(c as u32) || forall|i: int|
        0 <= i < set.len() ==> (#[trigger] set[i]) < n_comp && rank_at(scores, base, set[i] as int)
            < rank_at(scores, base, c)
}

/// The set stands for the rows `lo .. hi`: it holds the best of them, best first, and fillers
/// behind them where there are too few.
pub open spec fn stands_for(
    scores: Seq<u32>,
    base: int,
    n_comp: int,
    set: Seq<u32>,
    lo: int,
    hi: int,
) -> bool {
    &&& forall|i: int| 0 <= i < set.len() ==> #[trigger] set[i] >= n_comp || lo <= set[i] < hi
    &&& forall|i: int, j: int|
        0 <= i < j < set.len() && set[j] < n_comp ==> (#[trigger] set[i]) < n_comp && rank_at(
            scores,
            base,
            set[i] as int,
        ) < rank_at(scores, base, (#[trigger] set[j]) as int)
    &&& forall|c: int| lo <= c < hi ==> #[trigger] kept_or_beaten(scores, base, n_comp, set, c)
}

/// A set that stands for all rows, and is no larger than their number, is the best selection.
proof fn full_set_is_best(scores: Seq<u32>, base: int, n: int, set: Seq<u32>)
    requires
        stands_for(scores, base, n, set, 0, n),
        set.len() <= n <= u32::MAX,
    ensures
        is_best(scores, base, n, set),
{
    let k = set.len() as int;
    assert forall|i: int| 0 <= i < k implies #[trigger] set[i] < n by {
        if set[i] >= n {
            let spot = |c: int|
                if c < n {
                    choose|q: int| 0 <= q < k && set[q] == c as u32
                } else {
                    i
                };
            assert forall|c: int| 0 <= c < n + 1 implies 0 <= #[trigger] spot(c) < k && (c < n
                ==> set[spot(c)] == c as u32) by {
                if c < n {
                    assert(kept_or_beaten(scores, base, n, set, c));
                    assert(set.contains(c as u32));
                }
            }
            assert forall|c: int, d: int| 0 <= c < d < n + 1 implies #[trigger] spot(c)
                != #[trigger] spot(d) by {
                assert(set[spot(c)] == c as u32);
            }
            pigeonhole(spot, n + 1, k);
        }
    }
    assert forall|c: int| 0 <= c < n implies #[trigger] chosen_or_worse(scores, base, set, c) by {
        assert(kept_or_beaten(scores, base, n, set, c));
    }
}

/// The items are rows of `lo .. hi` with their scores, and fillers.
spec fn drawn_from(
    scores: Seq<u32>,
    base: int,
    n_comp: int,
    items: Seq<Scored>,
    lo: int,
    hi: int,
) -> bool {
    forall|i: int|
        0 <= i < items.len() && is_real(#[trigger] items[i], n_comp) ==> lo <= items[i].row < hi
            && items[i].score == scores[base + items[i].row]
}

/// What sorting puts first are rows by rank, then fillers.
proof fn first_are_by_rank(
    scores: Seq<u32>,
    base: int,
    n_comp: int,
    items: Seq<Scored>,
    k: int,
    lo: int,
    hi: int,
)
    requires
        is_pow2(items.len() as int),
        pool(items, n_comp),
        0 <= k <= items.len(),
        drawn_from(scores, base, n_comp, items, lo, hi),
    ensures
        best_rows(items, k).len() == k,
        forall|i: int|
            0 <= i < k ==> #[trigger] best_rows(items, k)[i] >= n_comp || lo <= best_rows(
                items,
                k,
            )[i] < hi,
        forall|i: int, j: int|
            0 <= i < j < k && best_rows(items, k)[j] < n_comp ==> (#[trigger] best_rows(
                items,
                k,
            )[i]) < n_comp && rank_at(scores, base, best_rows(items, k)[i] as int) < rank_at(
                scores,
                base,
                (#[trigger] best_rows(items, k)[j]) as int,
            ),
        forall|c: int|
            0 <= c < items.len() && is_real(#[trigger] items[c], n_comp) ==> kept_or_beaten(
                scores,
                base,
                n_comp,
                best_rows(items, k),
                items[c].row as int,
            ),
{
    let t = network(items);
    let set = best_rows(items, k);
    sorted_pool(items, n_comp, k);
    assert forall|i: int| 0 <= i < items.len() && is_real(t[i], n_comp) implies lo <= (
    #[trigger] t[i]).row < hi && t[i].rank() == rank_at(scores, base, t[i].row as int) by {
        assert(items.contains(t[i]));
        let c = choose|c: int| 0 <= c < items.len() && items[c] == t[i];
        assert(is_real(items[c], n_comp));
    }
    assert forall|i: int| 0 <= i < k implies #[trigger] set[i] == t[i].row by {}
    assert forall|c: int| 0 <= c < items.len() && is_real(#[trigger] items[c], n_comp) implies
    kept_or_beaten(scores, base, n_comp, set, items[c].row as int) by {
        let q = choose|q: int| 0 <= q < items.len() && t[q] == items[c];
        assert(t[q] == items[c]);
        if q < k {
            assert(set[q] == items[c].row);
        } else {
            assert forall|i: int| 0 <= i < k implies (#[trigger] set[i]) < n_comp && rank_at(
                scores,
                base,
                set[i] as int,
            ) < rank_at(scores, base, items[c].row as int) by {
                assert(is_real(t[q], n_comp));
                assert(is_real(t[i], n_comp) && t[i].rank() < t[q].rank());
            }
        }
    }
}

/// The best of a chunk of scores stand for its rows.
pub proof fn chunk_stands_for_its_rows(
    scores: Seq<u32>,
    base: int,
    n_comp: int,
    start: int,
    len: int,
    size: int,
    pad: u32,
    k: int,
)
    requires
        all_numbers(scores, base, n_comp),
        is_pow2(size),
        0 <= start,
        0 <= len <= size,
        start + len <= n_comp <= pad,
        0 <= k <= size,
    ensures
        stands_for(
            scores,
            base,
            n_comp,
            best_rows(padded(scores, base + start, start, len, size, pad), k),
            start,
            start + len,
        ),
        best_rows(padded(scores, base + start, start, len, size, pad), k).len() == k,
{
    let items = padded(scores, base + start, start, len, size, pad);
    assert forall|i: int| 0 <= i < items.len() implies (#[trigger] items[i]).ranked() by {
        if i < len {
            assert(!is_nan(scores[base + (start + i)]));
            assert(base + (start + i) == base + start + i);
        }
    }
    assert(pool(items, n_comp));
    assert(drawn_from(scores, base, n_comp, items, start, start + len)) by {
        assert forall|i: int|
            0 <= i < items.len() && is_real(#[trigger] items[i], n_comp) implies start
            <= items[i].row < start + len && items[i].score == scores[base + items[i].row] by {
            assert(base + (start + i) == base + start + i);
        }
    }
    first_are_by_rank(scores, base, n_comp, items, k, start, start + len);
    let set = best_rows(items, k);
    assert forall|c: int| start <= c < start + len implies #[trigger] kept_or_beaten(
        scores,
        base,
        n_comp,
        set,
        c,
    ) by {
        assert(is_real(items[c - start], n_comp));
        assert(items[c - start].row == c);
    }
}

/// Sorting all scores selects the best `k` of them.
pub proof fn sorting_selects_the_best(
    scores: Seq<u32>,
    base: int,
    n: int,
    size: int,
    pad: u32,
    k: int,
)
    requires
        all_numbers(scores, base, n),
        is_pow2(size),
        0 <= k <= n <= size,
        n <= pad,
    ensures
        is_best(scores, base, n, best_rows(padded(scores, base, 0, n, size, pad), k)),
        best_rows(padded(scores, base, 0, n, size, pad), k).len() == k,
{
    chunk_stands_for_its_rows(scores, base, n, 0, n, size, pad, k);
    assert(base + 0 == base);
    full_set_is_best(scores, base, n, best_rows(padded(scores, base, 0, n, size, pad), k));
}

/// Set `j` of a list of candidate sets of `k` rows each, which starts at `from`.
pub open spec fn set_at(candidates: Seq<u32>, from: int, k: int, j: int) -> Seq<u32> {
    candidates.subrange(from + j * k, from + j * k + k)
}

/// Every candidate set stands for the rows between two bounds, one after the other.
pub open spec fn sets_stand(
    scores: Seq<u32>,
    base: int,
    n_comp: int,
    candidates: Seq<u32>,
    from: int,
    k: int,
    bounds: Seq<int>,
) -> bool {
    &&& bounds.len() > 0
    &&& bounds[0] >= 0
    &&& bounds.last() <= n_comp
    &&& forall|i: int, j: int| 0 <= i <= j < bounds.len() ==> #[trigger] bounds[i]
        <= #[trigger] bounds[j]
    &&& forall|j: int|
        0 <= j < bounds.len() - 1 ==> stands_for(
            scores,
            base,
            n_comp,
            #[trigger] set_at(candidates, from, k, j),
            bounds[j],
            bounds[j + 1],
        )
}

/// Merging candidate sets gives a set that stands for all their rows. So merging in groups, and
/// then merging what came out, is the same as merging all at once.
pub proof fn merging_stands_for_all_rows(
    scores: Seq<u32>,
    base: int,
    n_comp: int,
    candidates: Seq<u32>,
    from: int,
    k: int,
    bounds: Seq<int>,
    size: int,
)
    requires
        all_numbers(scores, base, n_comp),
        is_pow2(size),
        0 <= k <= size,
        n_comp <= u32::MAX,
        0 <= from,
        from + (bounds.len() - 1) * k <= candidates.len(),
        (bounds.len() - 1) * k <= size,
        sets_stand(scores, base, n_comp, candidates, from, k, bounds),
    ensures
        stands_for(
            scores,
            base,
            n_comp,
            best_rows(
                candidates_of(
                    scores,
                    base,
                    n_comp,
                    candidates,
                    from,
                    (bounds.len() - 1) * k,
                    size,
                ),
                k,
            ),
            bounds[0],
            bounds.last(),
        ),
        best_rows(
            candidates_of(
                scores,
                base,
                n_comp,
                candidates,
                from,
                (bounds.len() - 1) * k,
                size,
            ),
            k,
        ).len() == k,
{
    let m = bounds.len() - 1;
    let n = m * k;
    assert(n >= 0) by (nonlinear_arith)
        requires
            m >= 0,
            k >= 0,
            n == m * k,
    ;
    let items = candidates_of(scores, base, n_comp, candidates, from, n, size);
    let lo = bounds[0];
    let hi = bounds.last();
    assert forall|i: int| 0 <= i < items.len() && is_real(#[trigger] items[i], n_comp) implies i < n
        && bounds[i / k] <= items[i].row < bounds[i / k + 1] && items[i].score == scores[base
        + items[i].row] by {
        if i < n {
            item_place(candidates, from, k, m, i);
            let s = set_at(candidates, from, k, i / k);
            assert(stands_for(scores, base, n_comp, s, bounds[i / k], bounds[i / k + 1]));
            assert(s[i % k] == items[i].row);
        }
    }
    assert forall|i: int| 0 <= i < items.len() implies (#[trigger] items[i]).ranked() by {
        if i < n && is_real(items[i], n_comp) {
            assert(!is_nan(scores[base + items[i].row]));
        }
    }
    assert forall|i: int, j: int| 0 <= i < j < items.len() && is_real(items[i], n_comp) implies (
    #[trigger] items[i]).row != (#[trigger] items[j]).row by {
        if is_real(items[j], n_comp) && items[i].row == items[j].row {
            let x = i / k;
            let y = j / k;
            item_place(candidates, from, k, m, i);
            item_place(candidates, from, k, m, j);
            if x == y {
                let s = set_at(candidates, from, k, x);
                assert(stands_for(scores, base, n_comp, s, bounds[x], bounds[x + 1]));
                assert(s[i % k] == s[j % k]);
                vstd::arithmetic::div_mod::lemma_fundamental_div_mod(i, k);
                vstd::arithmetic::div_mod::lemma_fundamental_div_mod(j, k);
                assert(i % k < j % k);
            } else if x < y {
                assert(bounds[x + 1] <= bounds[y]);
            } else {
                assert(bounds[y + 1] <= bounds[x]);
            }
        }
    }
    assert(pool(items, n_comp));
    assert(drawn_from(scores, base, n_comp, items, lo, hi)) by {
        assert forall|i: int|
            0 <= i < items.len() && is_real(#[trigger] items[i], n_comp) implies lo <= items[i].row
            < hi && items[i].score == scores[base + items[i].row] by {
            item_place(candidates, from, k, m, i);
            assert(bounds[0] <= bounds[i / k]);
            assert(bounds[i / k + 1] <= bounds[m]);
        }
    }
    first_are_by_rank(scores, base, n_comp, items, k, lo, hi);
    let set = best_rows(items, k);
    assert forall|c: int| lo <= c < hi implies #[trigger] kept_or_beaten(
        scores,
        base,
        n_comp,
        set,
        c,
    ) by {
        let j = bound_of(bounds, c, m);
        bound_of_is_right(bounds, c, m);
        let s = set_at(candidates, from, k, j);
        assert(stands_for(scores, base, n_comp, s, bounds[j], bounds[j + 1]));
        assert(kept_or_beaten(scores, base, n_comp, s, c));
        set_in_items(candidates, from, k, m, j);
        if s.contains(c as u32) {
            let q = choose|q: int| 0 <= q < s.len() && s[q] == c as u32;
            assert(items[j * k + q].row == c as u32);
            assert(is_real(items[j * k + q], n_comp));
        } else {
            beaten_set(scores, base, n_comp, items, k, j * k, s, c);
        }
    }
}

/// Where the candidate with number `i` stands.
proof fn item_place(candidates: Seq<u32>, from: int, k: int, m: int, i: int)
    requires
        0 <= i < m * k,
        0 <= k,
        0 <= m,
        0 <= from,
        from + m * k <= candidates.len(),
    ensures
        0 <= i / k < m,
        0 <= i % k < k,
        set_at(candidates, from, k, i / k).len() == k,
        set_at(candidates, from, k, i / k)[i % k] == candidates[from + i],
{
    assert(k > 0) by (nonlinear_arith)
        requires
            0 <= i < m * k,
            k >= 0,
    ;
    let j = i / k;
    vstd::arithmetic::div_mod::lemma_fundamental_div_mod(i, k);
    assert(0 <= j < m) by (nonlinear_arith)
        requires
            i == k * j + i % k,
            0 <= i % k < k,
            0 <= i < m * k,
            k > 0,
    ;
    assert(k * j == j * k) by (nonlinear_arith);
    set_in_items(candidates, from, k, m, j);
}

/// A set lies within the candidates.
proof fn set_in_items(candidates: Seq<u32>, from: int, k: int, m: int, j: int)
    requires
        0 <= j < m,
        0 <= k,
        0 <= from,
        from + m * k <= candidates.len(),
    ensures
        0 <= j * k,
        j * k + k <= m * k,
        set_at(candidates, from, k, j).len() == k,
        forall|q: int|
            0 <= q < k ==> #[trigger] set_at(candidates, from, k, j)[q] == candidates[from + (j * k
                + q)],
{
    assert(0 <= j * k && j * k + k <= m * k) by (nonlinear_arith)
        requires
            0 <= j < m,
            0 <= k,
    ;
}

/// The number of the pair of bounds between which a row lies.
spec fn bound_of(bounds: Seq<int>, c: int, m: int) -> int
    decreases m,
{
    if m <= 0 || bounds[m - 1] <= c {
        m - 1
    } else {
        bound_of(bounds, c, m - 1)
    }
}

proof fn bound_of_is_right(bounds: Seq<int>, c: int, m: int)
    requires
        0 <= m < bounds.len(),
        bounds[0] <= c < bounds[m],
    ensures
        0 <= bound_of(bounds, c, m) < m,
        bounds[bound_of(bounds, c, m)] <= c < bounds[bound_of(bounds, c, m) + 1],
    decreases m,
{
    if bounds[m - 1] > c {
        bound_of_is_right(bounds, c, m - 1);
    }
}

/// Where a full set of better rows is among the items, the row is beaten in what they are sorted
/// to as well.
proof fn beaten_set(
    scores: Seq<u32>,
    base: int,
    n_comp: int,
    items: Seq<Scored>,
    k: int,
    at: int,
    s: Seq<u32>,
    c: int,
)
    requires
        is_pow2(items.len() as int),
        pool(items, n_comp),
        0 <= k <= items.len(),
        0 <= at,
        at + k <= items.len(),
        s.len() == k,
        forall|q: int| 0 <= q < k ==> (#[trigger] items[at + q]).row == s[q],
        forall|i: int|
            0 <= i < items.len() && is_real(#[trigger] items[i], n_comp) ==> items[i].score
                == scores[base + items[i].row],
        forall|i: int|
            0 <= i < k ==> (#[trigger] s[i]) < n_comp && rank_at(scores, base, s[i] as int)
                < rank_at(scores, base, c),
    ensures
        kept_or_beaten(scores, base, n_comp, best_rows(items, k), c),
{
    let t = network(items);
    let set = best_rows(items, k);
    sorted_pool(items, n_comp, k);
    let spot = |q: int| choose|p: int| 0 <= p < items.len() && t[p] == items[at + q];
    assert forall|q: int| 0 <= q < k implies 0 <= #[trigger] spot(q) < items.len() && t[spot(q)]
        == items[at + q] && t[spot(q)].rank() < rank_at(scores, base, c) && is_real(
        t[spot(q)],
        n_comp,
    ) by {
        assert(items[at + q].row == s[q]);
        assert(is_real(items[at + q], n_comp));
        let p = choose|p: int| 0 <= p < items.len() && t[p] == items[at + q];
        assert(t[p] == items[at + q]);
    }
    assert forall|i: int| 0 <= i < k implies #[trigger] set[i] == t[i].row by {}
    if exists|q: int| 0 <= q < k && #[trigger] spot(q) >= k {
        let q = choose|q: int| 0 <= q < k && #[trigger] spot(q) >= k;
        assert forall|i: int| 0 <= i < k implies (#[trigger] set[i]) < n_comp && rank_at(
            scores,
            base,
            set[i] as int,
        ) < rank_at(scores, base, c) by {
            assert(is_real(t[i], n_comp) && t[i].rank() < t[spot(q)].rank());
            assert(items.contains(t[i]));
        }
    } else {
        assert forall|i: int| 0 <= i < k implies (#[trigger] set[i]) < n_comp && rank_at(
            scores,
            base,
            set[i] as int,
        ) < rank_at(scores, base, c) by {
            // every one of the first places is taken by one of the set
            if !(exists|q: int| 0 <= q < k && #[trigger] spot(q) == i) {
                let f = |q: int|
                    if q < k {
                        spot(q)
                    } else {
                        i
                    };
                assert forall|q: int| 0 <= q < k + 1 implies 0 <= #[trigger] f(q) < k by {
                    if q < k {
                        assert(0 <= spot(q) < items.len());
                    }
                }
                assert forall|x: int, y: int| 0 <= x < y < k + 1 implies #[trigger] f(x)
                    != #[trigger] f(y) by {
                    assert(t[spot(x)] == items[at + x]);
                    if y < k {
                        assert(t[spot(y)] == items[at + y]);
                        assert(is_real(items[at + x], n_comp)) by {
                            assert(is_real(t[spot(x)], n_comp));
                        }
                        assert(items[at + x].row != items[at + y].row);
                    }
                }
                pigeonhole(f, k + 1, k);
            }
            let q = choose|q: int| 0 <= q < k && #[trigger] spot(q) == i;
            assert(t[spot(q)].rank() < rank_at(scores, base, c));
            assert(items.contains(t[i]));
        }
    }
}

/// Selecting within chunks and merging what they select gives the same as selecting among all
/// scores at once.
pub proof fn chunked_selection_agrees(
    scores: Seq<u32>,
    base: int,
    n: int,
    candidates: Seq<u32>,
    from: int,
    k: int,
    bounds: Seq<int>,
    size: int,
    whole: int,
)
    requires
        all_numbers(scores, base, n),
        is_pow2(size),
        is_pow2(whole),
        0 <= k <= n <= whole,
        k <= size,
        n <= u32::MAX,
        0 <= from,
        from + (bounds.len() - 1) * k <= candidates.len(),
        (bounds.len() - 1) * k <= size,
        sets_stand(scores, base, n, candidates, from, k, bounds),
        bounds[0] == 0,
        bounds.last() == n,
    ensures
        best_rows(
            candidates_of(scores, base, n, candidates, from, (bounds.len() - 1) * k, size),
            k,
        ) == best_rows(padded(scores, base, 0, n, whole, u32::MAX), k),
{
    let merged = best_rows(
        candidates_of(scores, base, n, candidates, from, (bounds.len() - 1) * k, size),
        k,
    );
    merging_stands_for_all_rows(scores, base, n, candidates, from, k, bounds, size);
    full_set_is_best(scores, base, n, merged);
    sorting_selects_the_best(scores, base, n, whole, u32::MAX, k);
    best_is_unique(
        scores,
        base,
        n,
        merged,
        best_rows(padded(scores, base, 0, n, whole, u32::MAX), k),
    );
}

proof fn place_splits(scores: Seq<u32>, base: int, list: Seq<u32>, c: u32, n: int, i: int)
    requires
        0 <= i <= list.len(),
        all_numbers(scores, base, n),
        c < n,
        forall|x: int| 0 <= x < list.len() ==> #[trigger] list[x] < c,
        forall|x: int, y: int|
            0 <= x < y < list.len() ==> rank_at(scores, base, (#[trigger] list[x]) as int)
                < rank_at(scores, base, (#[trigger] list[y]) as int),
        forall|x: int|
            0 <= x < i ==> rank_at(scores, base, (#[trigger] list[x]) as int) < rank_at(
                scores,
                base,
                c as int,
            ),
    ensures
        i <= insert_place(scores, base, list, c, i) <= list.len(),
        forall|x: int|
            0 <= x < insert_place(scores, base, list, c, i) ==> rank_at(
                scores,
                base,
                (#[trigger] list[x]) as int,
            ) < rank_at(scores, base, c as int),
        forall|x: int|
            insert_place(scores, base, list, c, i) <= x < list.len() ==> rank_at(
                scores,
                base,
                (#[trigger] list[x]) as int,
            ) > rank_at(scores, base, c as int),
    decreases list.len() - i,
{
    if i < list.len() {
        assert(!is_nan(scores[base + c]));
        assert(!is_nan(scores[base + list[i]]));
        if better(scores[base + c], c, scores[base + list[i]], list[i]) {
            assert forall|x: int| i <= x < list.len() implies rank_at(
                scores,
                base,
                (#[trigger] list[x]) as int,
            ) > rank_at(scores, base, c as int) by {
                if x > i {
                    assert(rank_at(scores, base, list[i] as int) < rank_at(
                        scores,
                        base,
                        list[x] as int,
                    ));
                }
            }
        } else {
            place_splits(scores, base, list, c, n, i + 1);
        }
    }
}

/// Insertion selects the best `k` scores.
#[verifier::rlimit(60)]
#[verifier::spinoff_prover]
pub proof fn insertion_selects_the_best(scores: Seq<u32>, base: int, n: nat, m: nat, k: int)
    requires
        all_numbers(scores, base, n as int),
        m <= n <= u32::MAX,
        k >= 0,
    ensures
        is_best(scores, base, m as int, inserted(scores, base, m, k)),
        inserted(scores, base, m, k).len() == if m <= k {
            m as int
        } else {
            k
        },
    decreases m,
{
    if m > 0 {
        let c = (m - 1) as u32;
        insertion_selects_the_best(scores, base, n, (m - 1) as nat, k);
        let list = inserted(scores, base, (m - 1) as nat, k);
        place_splits(scores, base, list, c, n as int, 0);
        let p = insert_place(scores, base, list, c, 0);
        let longer = list.insert(p, c);
        let cut = insert_row(scores, base, list, c, k);
        assert forall|i: int| 0 <= i < longer.len() implies #[trigger] longer[i] < m by {
            if i < p {
                assert(longer[i] == list[i]);
            } else if i > p {
                assert(longer[i] == list[i - 1]);
            }
        }
        assert forall|i: int, j: int| 0 <= i < j < longer.len() implies rank_at(
            scores,
            base,
            (#[trigger] longer[i]) as int,
        ) < rank_at(scores, base, (#[trigger] longer[j]) as int) by {
            let a = if i < p {
                list[i]
            } else if i == p {
                c
            } else {
                list[i - 1]
            };
            let b = if j < p {
                list[j]
            } else if j == p {
                c
            } else {
                list[j - 1]
            };
            assert(longer[i] == a && longer[j] == b);
        }
        assert forall|i: int| 0 <= i < cut.len() implies #[trigger] cut[i] == longer[i] by {}
        assert forall|d: int| 0 <= d < m implies #[trigger] chosen_or_worse(
            scores,
            base,
            cut,
            d,
        ) by {
            let dr = rank_at(scores, base, d);
            // where the row stands in the longer list, if it does
            if longer.contains(d as u32) {
                let q = choose|q: int| 0 <= q < longer.len() && longer[q] == d as u32;
                if q < cut.len() {
                    assert(cut[q] == d as u32);
                } else {
                    assert forall|i: int| 0 <= i < cut.len() implies rank_at(
                        scores,
                        base,
                        (#[trigger] cut[i]) as int,
                    ) < dr by {
                        assert(rank_at(scores, base, longer[i] as int) < rank_at(
                            scores,
                            base,
                            longer[q] as int,
                        ));
                    }
                }
            } else {
                if d == c {
                    assert(longer[p] == c);
                }
                assert(chosen_or_worse(scores, base, list, d));
                assert(!list.contains(d as u32)) by {
                    if list.contains(d as u32) {
                        let q = choose|q: int| 0 <= q < list.len() && list[q] == d as u32;
                        if q < p {
                            assert(longer[q] == d as u32);
                        } else {
                            assert(longer[q + 1] == d as u32);
                        }
                    }
                }
                // the list was full, so what was put in did not go to its end
                assert(list.len() == k) by {
                    if list.len() < k {
                        full_list_has_all(scores, base, (m - 1) as nat, k, d);
                    }
                }
                assert forall|i: int| 0 <= i < cut.len() implies rank_at(
                    scores,
                    base,
                    (#[trigger] cut[i]) as int,
                ) < dr by {
                    if i < p {
                        assert(cut[i] == list[i]);
                    } else if i > p {
                        assert(cut[i] == list[i - 1]);
                    } else {
                        assert(longer[i] == c);
                        assert(rank_at(scores, base, c as int) < rank_at(
                            scores,
                            base,
                            list[p] as int,
                        ));
                    }
                }
            }
        }
    }
}

/// A list that is not full holds all rows.
proof fn full_list_has_all(scores: Seq<u32>, base: int, m: nat, k: int, d: int)
    requires
        inserted(scores, base, m, k).len() < k,
        0 <= d < m <= u32::MAX,
    ensures
        inserted(scores, base, m, k).contains(d as u32),
    decreases m,
{
    let c = (m - 1) as u32;
    let list = inserted(scores, base, (m - 1) as nat, k);
    place_in_list(scores, base, list, c, 0);
    let p = insert_place(scores, base, list, c, 0);
    let longer = list.insert(p, c);
    assert(inserted(scores, base, m, k) == longer);
    if d == c {
        assert(longer[p] == c);
    } else {
        full_list_has_all(scores, base, (m - 1) as nat, k, d);
        let q = choose|q: int| 0 <= q < list.len() && list[q] == d as u32;
        if q < p {
            assert(longer[q] == d as u32);
        } else {
            assert(longer[q + 1] == d as u32);
        }
    }
}

proof fn place_in_list(scores: Seq<u32>, base: int, list: Seq<u32>, c: u32, i: int)
    requires
        0 <= i <= list.len(),
    ensures
        i <= insert_place(scores, base, list, c, i) <= list.len(),
    decreases list.len() - i,
{
    if i < list.len() && !better(scores[base + c], c, scores[base + list[i]], list[i]) {
        place_in_list(scores, base, list, c, i + 1);
    }
}

/// Selection by sorting and selection by insertion agree.
pub proof fn selections_agree(
    scores: Seq<u32>,
    base: int,
    n: int,
    size: int,
    pad: u32,
    k: int,
)
    requires
        all_numbers(scores, base, n),
        is_pow2(size),
        0 <= k <= n <= size,
        n <= pad,
    ensures
        best_rows(padded(scores, base, 0, n, size, pad), k) == inserted(
            scores,
            base,
            n as nat,
            k,
        ),
{
    sorting_selects_the_best(scores, base, n, size, pad, k);
    insertion_selects_the_best(scores, base, n as nat, n as nat, k);
    best_is_unique(
        scores,
        base,
        n,
        best_rows(padded(scores, base, 0, n, size, pad), k),
        inserted(scores, base, n as nat, k),
    );
}

/// The ascending sort leaves the same numbers, in rising order.
pub proof fn ascending_sort_sorts(s: Seq<i32>)
    requires
        is_pow2(s.len() as int),
    ensures
        ({
            let r = rising_values(network(as_rising(s)));
            &&& r.len() == s.len()
            &&& r.to_multiset() == s.to_multiset()
            &&& forall|i: int, j: int| 0 <= i <= j < r.len() ==> #[trigger] r[i] <= #[trigger] r[j]
        }),
{
    let a = as_rising(s);
    network_sorts(a);
    crate::kernels::bitonic_laws::network_permutes(a);
    let t = network(a);
    let r = rising_values(t);
    assert(rising_values(a) =~= s);
    assert forall|i: int, j: int| 0 <= i <= j < r.len() implies #[trigger] r[i]
        <= #[trigger] r[j] by {
        assert(t[i].rank() <= t[j].rank());
    }
    assert forall|v: i32| r.to_multiset().count(v) == #[trigger] s.to_multiset().count(v) by {
        values_count(t, v);
        values_count(a, v);
    }
    assert(r.to_multiset() =~= s.to_multiset());
}

/// A number occurs as often as the item that holds it.
proof fn values_count(a: Seq<Rising>, v: i32)
    ensures
        rising_values(a).to_multiset().count(v) == a.to_multiset().count(Rising(v)),
    decreases a.len(),
{
    broadcast use vstd::multiset::group_multiset_axioms;

    let r = rising_values(a);
    if a.len() > 0 {
        let b = a.drop_last();
        values_count(b, v);
        assert(b.push(a.last()) =~= a);
        assert(rising_values(b).push(a.last().0) =~= r);
        to_multiset_build(b, a.last());
        to_multiset_build(rising_values(b), a.last().0);
    } else {
        to_multiset_len(a);
        to_multiset_len(r);
        to_multiset_contains(a, Rising(v));
        to_multiset_contains(r, v);
    }
}

} // verus!
