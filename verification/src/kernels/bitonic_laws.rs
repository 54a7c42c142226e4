//! The bitonic network rearranges its items and sorts them.
use vstd::arithmetic::div_mod::{
    lemma_div_denominator, lemma_div_is_ordered, lemma_fundamental_div_mod,
    lemma_fundamental_div_mod_converse,
};
use vstd::prelude::*;
use vstd::seq_lib::*;

use crate::kernels::bitonic::{
    all_ranked, exchanges, is_first, is_up, network, pair_fits, pair_start, pass, passes, sorted,
    stages, Ranked,
};
use crate::pow2::{is_pow2, pow2_divides, pow2_doubles};

verus! {

/// The items after the pairs that start before `m` have been compared.
spec fn part_pass<T: Ranked>(s: Seq<T>, k: int, j: int, m: int) -> Seq<T> {
    Seq::new(
        s.len(),
        |x: int|
            if pair_start(x, j) < m {
                pass(s, k, j)[x]
            } else {
                s[x]
            },
    )
}

proof fn part_pass_permutes<T: Ranked>(s: Seq<T>, k: int, j: int, m: int)
    requires
        j > 0,
        s.len() as int % (2 * j) == 0,
        0 <= m <= s.len(),
    ensures
        part_pass(s, k, j, m).to_multiset() == s.to_multiset(),
    decreases m,
{
    let n = s.len() as int;
    if m == 0 {
        assert forall|x: int| 0 <= x < n implies part_pass(s, k, j, 0)[x] == s[x] by {
            pair_fits(x, j, n);
        }
        assert(part_pass(s, k, j, 0) =~= s);
    } else {
        let lo = m - 1;
        part_pass_permutes(s, k, j, lo);
        let before = part_pass(s, k, j, lo);
        let after = part_pass(s, k, j, m);
        pair_fits(lo, j, n);
        if is_first(lo, j) && exchanges(s, k, j, lo) {
            let a = s[lo];
            let b = s[lo + j];
            assert forall|x: int| 0 <= x < n implies after[x] == before.update(lo, b).update(
                lo + j,
                a,
            )[x] by {
                pair_fits(x, j, n);
            }
            assert(after =~= before.update(lo, b).update(lo + j, a));
            assert(before[lo] == a && before[lo + j] == b);
            broadcast use group_to_multiset_ensures;

            let first = before.update(lo, b);
            assert(first[lo + j] == b);
            assert(first.to_multiset() =~= before.to_multiset().insert(b).remove(a));
            assert(after.to_multiset() =~= first.to_multiset().insert(a).remove(b));
            assert(before.to_multiset().count(a) > 0) by {
                before.to_multiset_ensures();
                assert(before.contains(a));
            }
            assert(after.to_multiset() =~= before.to_multiset());
        } else {
            assert forall|x: int| 0 <= x < n implies after[x] == before[x] by {
                pair_fits(x, j, n);
            }
            assert(after =~= before);
        }
    }
}

proof fn pass_permutes<T: Ranked>(s: Seq<T>, k: int, j: int)
    requires
        j > 0,
        s.len() as int % (2 * j) == 0,
    ensures
        pass(s, k, j).to_multiset() == s.to_multiset(),
        pass(s, k, j).len() == s.len(),
        all_ranked(s) ==> all_ranked(pass(s, k, j)),
{
    let n = s.len() as int;
    part_pass_permutes(s, k, j, n);
    assert forall|x: int| 0 <= x < n implies pass(s, k, j)[x] == part_pass(s, k, j, n)[x] by {
        pair_fits(x, j, n);
    }
    assert(pass(s, k, j) =~= part_pass(s, k, j, n));
    if all_ranked(s) {
        assert forall|x: int| 0 <= x < n implies (#[trigger] pass(s, k, j)[x]).ranked() by {
            pair_fits(x, j, n);
            assert(s[pair_start(x, j)].ranked());
            assert(s[pair_start(x, j) + j].ranked());
        }
    }
}

/// The ranks of the items, turned round where a run is sorted best last.
spec fn keys<T: Ranked>(s: Seq<T>, k: int) -> Seq<int> {
    Seq::new(
        s.len(),
        |i: int|
            if is_up(i, k) {
                s[i].rank()
            } else {
                -s[i].rank()
            },
    )
}

/// Between `p` and `q`, or everywhere else, the keys from `lo` on are at least `c`.
spec fn is_run(ks: Seq<int>, lo: int, n: int, c: int, p: int, q: int, inside: bool) -> bool {
    &&& 0 <= p <= q <= n
    &&& forall|i: int| 0 <= i < n ==> (#[trigger] ks[lo + i] >= c) == ((p <= i < q) == inside)
}

/// The keys that reach the height `c` form one run, round the ends of the block if need be.
spec fn has_run(ks: Seq<int>, lo: int, n: int, c: int) -> bool {
    exists|p: int, q: int, inside: bool| is_run(ks, lo, n, c, p, q, inside)
}

/// The keys that reach any given height form one run.
spec fn bitonic_at(ks: Seq<int>, lo: int, n: int) -> bool {
    forall|c: int| #[trigger] has_run(ks, lo, n, c)
}

/// The smaller keys of all pairs in the first half, the larger in the second.
spec fn half_cleaned(ks: Seq<int>, out: Seq<int>, lo: int, h: int) -> bool {
    forall|i: int|
        #![trigger out[lo + i]]
        #![trigger out[lo + h + i]]
        0 <= i < h ==> if ks[lo + i] <= ks[lo + h + i] {
            out[lo + i] == ks[lo + i] && out[lo + h + i] == ks[lo + h + i]
        } else {
            out[lo + i] == ks[lo + h + i] && out[lo + h + i] == ks[lo + i]
        }
}

/// At every height, either the first half stays below it or the second reaches it, and the
/// other half is a run again.
proof fn half_clean_at(ks: Seq<int>, out: Seq<int>, lo: int, h: int, c: int)
    requires
        h > 0,
        bitonic_at(ks, lo, 2 * h),
        half_cleaned(ks, out, lo, h),
    ensures
        has_run(out, lo, h, c),
        has_run(out, lo + h, h, c),
        (forall|i: int| 0 <= i < h ==> #[trigger] out[lo + i] < c) || (forall|i: int|
            0 <= i < h ==> #[trigger] out[lo + h + i] >= c),
{
    let w = 2 * h;
    assert(has_run(ks, lo, w, c));
    let (p, q, inside) = choose|p: int, q: int, inside: bool|
        is_run(ks, lo, w, c, p, q, inside);
    assert(is_run(ks, lo, w, c, p, q, inside));
    assert forall|i: int| 0 <= i < h implies (#[trigger] out[lo + i] >= c) == (((p <= i < q)
        == inside) && ((p <= i + h < q) == inside)) by {
        assert(ks[lo + i] >= c <==> ((p <= i < q) == inside));
        assert(ks[lo + (i + h)] >= c <==> ((p <= i + h < q) == inside));
        assert(lo + (i + h) == lo + h + i);
    }
    assert forall|i: int| 0 <= i < h implies (#[trigger] out[lo + h + i] >= c) == (((p <= i < q)
        == inside) || ((p <= i + h < q) == inside)) by {
        assert(ks[lo + i] >= c <==> ((p <= i < q) == inside));
        assert(ks[lo + (i + h)] >= c <==> ((p <= i + h < q) == inside));
        assert(lo + (i + h) == lo + h + i);
        assert(out[lo + i] == ks[lo + i] || out[lo + i] == ks[lo + h + i]);
    }
    let short = q - h <= p;
    // the part of the block where exactly one of the pair is inside the run
    let (a, b, same) = if q <= h {
        (p, q, true)
    } else if p >= h {
        (p - h, q - h, true)
    } else if short {
        (q - h, p, false)
    } else {
        (p, q - h, false)
    };
    if short {
        // no pair has both inside
        if inside {
            assert(is_run(out, lo, h, c, 0, 0, true));
            assert(is_run(out, lo + h, h, c, a, b, same));
        } else {
            assert(is_run(out, lo, h, c, a, b, !same));
            assert(is_run(out, lo + h, h, c, 0, 0, false));
        }
    } else {
        // every pair has one inside; both are in between `p` and `q - h`
        if inside {
            assert(is_run(out, lo, h, c, p, q - h, true));
            assert(is_run(out, lo + h, h, c, 0, 0, false));
        } else {
            assert(is_run(out, lo, h, c, 0, 0, true));
            assert(is_run(out, lo + h, h, c, p, q - h, false));
        }
    }
}

/// Comparing the halves of a bitonic block leaves two bitonic halves, with nothing in the first
/// above anything in the second.
proof fn half_clean(ks: Seq<int>, out: Seq<int>, lo: int, h: int)
    requires
        h > 0,
        bitonic_at(ks, lo, 2 * h),
        half_cleaned(ks, out, lo, h),
    ensures
        bitonic_at(out, lo, h),
        bitonic_at(out, lo + h, h),
        forall|x: int, y: int|
            0 <= x < h && 0 <= y < h ==> #[trigger] out[lo + x] <= #[trigger] out[lo + h + y],
{
    assert forall|c: int| #[trigger] has_run(out, lo, h, c) by {
        half_clean_at(ks, out, lo, h, c);
    }
    assert forall|c: int| #[trigger] has_run(out, lo + h, h, c) by {
        half_clean_at(ks, out, lo, h, c);
    }
    assert forall|x: int, y: int| 0 <= x < h && 0 <= y < h implies #[trigger] out[lo + x]
        <= #[trigger] out[lo + h + y] by {
        half_clean_at(ks, out, lo, h, out[lo + x]);
    }
}

/// How many of the first `n` keys from `lo` on come before the first that reaches `c`.
spec fn first_reach(ks: Seq<int>, lo: int, n: int, c: int) -> int
    decreases n,
{
    if n <= 0 {
        0
    } else {
        let before = first_reach(ks, lo, n - 1, c);
        if before < n - 1 || ks[lo + n - 1] >= c {
            before
        } else {
            n
        }
    }
}

proof fn first_reach_splits(ks: Seq<int>, lo: int, n: int, c: int)
    requires
        n >= 0,
        forall|x: int, y: int|
            0 <= x <= y < n ==> #[trigger] ks[lo + x] <= #[trigger] ks[lo + y],
    ensures
        0 <= first_reach(ks, lo, n, c) <= n,
        forall|i: int|
            0 <= i < n ==> (#[trigger] ks[lo + i] >= c) == (i >= first_reach(ks, lo, n, c)),
    decreases n,
{
    if n > 0 {
        first_reach_splits(ks, lo, n - 1, c);
        let before = first_reach(ks, lo, n - 1, c);
        assert(lo + n - 1 == lo + (n - 1));
        if before < n - 1 {
            assert(ks[lo + before] >= c);
            assert(ks[lo + before] <= ks[lo + (n - 1)]);
        }
    }
}

/// A rising half followed by a falling half is bitonic.
proof fn up_and_down_is_bitonic(ks: Seq<int>, lo: int, h: int)
    requires
        h > 0,
        forall|x: int, y: int|
            0 <= x <= y < h ==> #[trigger] ks[lo + x] <= #[trigger] ks[lo + y],
        forall|x: int, y: int|
            0 <= x <= y < h ==> #[trigger] ks[lo + h + x] >= #[trigger] ks[lo + h + y],
    ensures
        bitonic_at(ks, lo, 2 * h),
{
    assert forall|c: int| #[trigger] has_run(ks, lo, 2 * h, c) by {
        first_reach_splits(ks, lo, h, c);
        let p = first_reach(ks, lo, h, c);
        // the falling half, turned round, rises
        let down = Seq::new(h as nat, |i: int| -ks[lo + h + i]);
        assert forall|x: int, y: int| 0 <= x <= y < h implies #[trigger] down[0 + x]
            <= #[trigger] down[0 + y] by {
            assert(ks[lo + h + x] >= ks[lo + h + y]);
        }
        first_reach_splits(down, 0, h, -c + 1);
        let r = first_reach(down, 0, h, -c + 1);
        let q = h + r;
        assert forall|i: int| 0 <= i < 2 * h implies (#[trigger] ks[lo + i] >= c) == ((p <= i < q)
            == true) by {
            if i >= h {
                let d = i - h;
                assert(down[0 + d] == -ks[lo + h + d]);
                assert((down[0 + d] >= -c + 1) == (d >= r));
                assert(lo + h + d == lo + i);
            }
        }
        assert(is_run(ks, lo, 2 * h, c, p, q, true));
    }
}

/// Turning all keys round keeps a block bitonic.
proof fn turned_is_bitonic(ks: Seq<int>, out: Seq<int>, lo: int, n: int)
    requires
        bitonic_at(ks, lo, n),
        forall|i: int| 0 <= i < n ==> #[trigger] out[lo + i] == -ks[lo + i],
    ensures
        bitonic_at(out, lo, n),
{
    assert forall|c: int| #[trigger] has_run(out, lo, n, c) by {
        let d = -c + 1;
        assert(has_run(ks, lo, n, d));
        let (p, q, inside) = choose|p: int, q: int, inside: bool|
            is_run(ks, lo, n, d, p, q, inside);
        assert(is_run(ks, lo, n, d, p, q, inside));
        assert forall|i: int| 0 <= i < n implies (#[trigger] out[lo + i] >= c) == ((p <= i < q)
            == !inside) by {
            assert((ks[lo + i] >= d) == ((p <= i < q) == inside));
        }
        assert(is_run(out, lo, n, c, p, q, !inside));
    }
}

/// The same keys are as bitonic.
proof fn same_is_bitonic(ks: Seq<int>, out: Seq<int>, lo: int, n: int)
    requires
        bitonic_at(ks, lo, n),
        forall|i: int| 0 <= i < n ==> #[trigger] out[lo + i] == ks[lo + i],
    ensures
        bitonic_at(out, lo, n),
{
    assert forall|c: int| #[trigger] has_run(out, lo, n, c) by {
        assert(has_run(ks, lo, n, c));
        let (p, q, inside) = choose|p: int, q: int, inside: bool|
            is_run(ks, lo, n, c, p, q, inside);
        assert(is_run(ks, lo, n, c, p, q, inside));
        assert forall|i: int| 0 <= i < n implies (#[trigger] out[lo + i] >= c) == ((p <= i < q)
            == inside) by {
            assert((ks[lo + i] >= c) == ((p <= i < q) == inside));
        }
        assert(is_run(out, lo, n, c, p, q, inside));
    }
}

/// The block of `w` places with number `q` is bitonic.
spec fn block_bitonic(ks: Seq<int>, q: int, w: int) -> bool {
    bitonic_at(ks, q * w, w)
}

/// Every block of `w` places is bitonic, and within the larger blocks of `big` places no key is
/// above one of a later block.
spec fn merging(ks: Seq<int>, big: int, w: int) -> bool {
    &&& forall|q: int| 0 <= q && (q + 1) * w <= ks.len() ==> #[trigger] block_bitonic(ks, q, w)
    &&& forall|i: int, j: int|
        0 <= i < j < ks.len() && i / big == j / big && i / w != j / w ==> #[trigger] ks[i]
            <= #[trigger] ks[j]
}

/// Which way a run is sorted goes by the number of its block.
proof fn up_by_block(i: int, k: int)
    requires
        0 <= i,
        k > 0,
    ensures
        is_up(i, k) == ((i / k) % 2 == 0),
{
    let q = i / (2 * k);
    let r = i % (2 * k);
    lemma_fundamental_div_mod(i, 2 * k);
    assert(i == (2 * k) * q + r);
    if r < k {
        assert((2 * q) * k + r == i) by (nonlinear_arith)
            requires
                i == (2 * k) * q + r,
        ;
        lemma_fundamental_div_mod_converse(i, k, 2 * q, r);
    } else {
        assert((2 * q + 1) * k + (r - k) == i) by (nonlinear_arith)
            requires
                i == (2 * k) * q + r,
        ;
        lemma_fundamental_div_mod_converse(i, k, 2 * q + 1, r - k);
    }
}

/// Places in the same small block are in the same large block.
proof fn same_block(i: int, x: int, w: int, k: int)
    requires
        0 <= i,
        0 <= x,
        w > 0,
        k > 0,
        k % w == 0,
        i / w == x / w,
    ensures
        i / k == x / k,
        is_up(i, k) == is_up(x, k),
{
    let c = k / w;
    lemma_fundamental_div_mod(k, w);
    assert(c > 0) by (nonlinear_arith)
        requires
            k == w * c,
            k > 0,
            w > 0,
    ;
    lemma_div_denominator(i, w, c);
    lemma_div_denominator(x, w, c);
    up_by_block(i, k);
    up_by_block(x, k);
}

/// A place by the number of its block and its place there.
proof fn place(q: int, w: int, o: int)
    requires
        0 <= q,
        0 <= o < w,
    ensures
        (q * w + o) / w == q,
        (q * w + o) % w == o,
        q * w >= 0,
{
    lemma_fundamental_div_mod_converse(q * w + o, w, q, o);
    assert(q * w >= 0) by (nonlinear_arith)
        requires
            q >= 0,
            w >= 0,
    ;
}

/// Both items of a pair are in one block of twice the distance.
proof fn pair_in_block(i: int, j: int, n: int)
    requires
        0 <= i < n,
        j > 0,
        n % (2 * j) == 0,
    ensures
        pair_start(i, j) / (2 * j) == i / (2 * j),
        (pair_start(i, j) + j) / (2 * j) == i / (2 * j),
{
    let w = 2 * j;
    let q = i / w;
    lemma_fundamental_div_mod(i, w);
    assert(q >= 0) by (nonlinear_arith)
        requires
            i == w * q + i % w,
            0 <= i % w < w,
            0 <= i,
            w > 0,
    ;
    assert(w * q == q * w) by (nonlinear_arith);
    let o = pair_start(i, j) - q * w;
    place(q, w, o);
    place(q, w, o + j);
}

/// A pass compares the halves of every block of twice its distance.
proof fn pass_cleans<T: Ranked>(s: Seq<T>, k: int, j: int, q: int)
    requires
        all_ranked(s),
        j > 0,
        k > 0,
        k % (2 * j) == 0,
        0 <= q,
        (q + 1) * (2 * j) <= s.len(),
    ensures
        half_cleaned(keys(s, k), keys(pass(s, k, j), k), q * (2 * j), j),
{
    let w = 2 * j;
    let ks = keys(s, k);
    let out = keys(pass(s, k, j), k);
    let lo = q * w;
    assert((q + 1) * w == lo + w) by (nonlinear_arith)
        requires
            lo == q * w,
    ;
    place(q, w, 0);
    assert forall|i: int|
        #![trigger out[lo + i]]
        #![trigger out[lo + j + i]]
        0 <= i < j implies if ks[lo + i] <= ks[lo + j + i] {
        out[lo + i] == ks[lo + i] && out[lo + j + i] == ks[lo + j + i]
    } else {
        out[lo + i] == ks[lo + j + i] && out[lo + j + i] == ks[lo + i]
    } by {
        let a = lo + i;
        let b = lo + j + i;
        place(q, w, i);
        place(q, w, j + i);
        assert(lo + (j + i) == b);
        same_block(a, b, w, k);
        assert(pair_start(a, j) == a);
        assert(pair_start(b, j) == a);
        assert(a + j == b);
        assert(s[a].ranked() && s[b].ranked());
        s[a].before_is_by_rank(s[b]);
        s[b].before_is_by_rank(s[a]);
    }
}

/// A pass turns bitonic blocks into bitonic blocks of half the size, in order.
proof fn pass_merges<T: Ranked>(s: Seq<T>, k: int, j: int)
    requires
        all_ranked(s),
        j > 0,
        k > 0,
        k % (2 * j) == 0,
        s.len() as int % (2 * j) == 0,
        merging(keys(s, k), k, 2 * j),
    ensures
        merging(keys(pass(s, k, j), k), k, j),
{
    let n = s.len() as int;
    let w = 2 * j;
    let ks = keys(s, k);
    let out = keys(pass(s, k, j), k);
    let m = n / w;
    lemma_fundamental_div_mod(n, w);
    assert forall|p: int| 0 <= p && (p + 1) * j <= out.len() implies #[trigger] block_bitonic(
        out,
        p,
        j,
    ) by {
        let q = p / 2;
        assert(q + 1 <= m) by (nonlinear_arith)
            requires
                (p + 1) * j <= n,
                n == w * m,
                w == 2 * j,
                j > 0,
                q == p / 2,
        ;
        assert((q + 1) * w <= n) by (nonlinear_arith)
            requires
                q + 1 <= m,
                n == w * m,
                w > 0,
        ;
        assert(block_bitonic(ks, q, w));
        pass_cleans(s, k, j, q);
        half_clean(ks, out, q * w, j);
        if p % 2 == 0 {
            assert(p * j == q * w) by (nonlinear_arith)
                requires
                    p == 2 * q,
                    w == 2 * j,
            ;
        } else {
            assert(p * j == q * w + j) by (nonlinear_arith)
                requires
                    p == 2 * q + 1,
                    w == 2 * j,
            ;
        }
    }
    assert forall|x: int, y: int|
        0 <= x < y < out.len() && x / k == y / k && x / j != y / j implies #[trigger] out[x]
        <= #[trigger] out[y] by {
        pair_fits(x, j, n);
        pair_fits(y, j, n);
        pair_in_block(x, j, n);
        pair_in_block(y, j, n);
        let q = x / w;
        lemma_fundamental_div_mod(x, w);
        lemma_fundamental_div_mod(y, w);
        if x / w == y / w {
            let ox = x % w;
            let oy = y % w;
            assert(q >= 0) by (nonlinear_arith)
                requires
                    x == w * q + ox,
                    0 <= ox < w,
                    0 <= x,
                    w > 0,
            ;
            assert(w * q == q * w) by (nonlinear_arith);
            assert(q < m) by (nonlinear_arith)
                requires
                    w * q <= x,
                    x < n,
                    n == w * m,
                    w > 0,
            ;
            assert((q + 1) * w <= n) by (nonlinear_arith)
                requires
                    q + 1 <= m,
                    n == w * m,
                    w > 0,
            ;
            assert(block_bitonic(ks, q, w));
            pass_cleans(s, k, j, q);
            half_clean(ks, out, q * w, j);
            // a first-half place is in the even block of size j, a second-half place in the odd
            halves_by_block(x, j);
            halves_by_block(y, j);
            assert(ox < j && oy >= j);
            assert(out[q * w + ox] <= out[q * w + j + (oy - j)]);
        } else {
            if x / w > y / w {
                lemma_div_is_ordered(x, y, w);
            }
            let px = pair_start(x, j);
            let py = pair_start(y, j);
            keys_of_pass(s, k, j, x);
            keys_of_pass(s, k, j, y);
            let x1 = if out[x] == ks[px] {
                px
            } else {
                px + j
            };
            let y1 = if out[y] == ks[py] {
                py
            } else {
                py + j
            };
            same_block(x, x1, w, k);
            same_block(y, y1, w, k);
            if x1 >= y1 {
                lemma_div_is_ordered(y1, x1, w);
            }
            assert(ks[x1] <= ks[y1]);
        }
    }
}

/// A place is in the first half of its block of `2 * j` places if its block of `j` places has an
/// even number.
proof fn halves_by_block(x: int, j: int)
    requires
        0 <= x,
        j > 0,
    ensures
        x / j == 2 * (x / (2 * j)) + (if x % (2 * j) < j {
            0int
        } else {
            1int
        }),
{
    let w = 2 * j;
    let q = x / w;
    let o = x % w;
    lemma_fundamental_div_mod(x, w);
    if o < j {
        assert((2 * q) * j + o == x) by (nonlinear_arith)
            requires
                x == w * q + o,
                w == 2 * j,
        ;
        lemma_fundamental_div_mod_converse(x, j, 2 * q, o);
    } else {
        assert((2 * q + 1) * j + (o - j) == x) by (nonlinear_arith)
            requires
                x == w * q + o,
                w == 2 * j,
        ;
        lemma_fundamental_div_mod_converse(x, j, 2 * q + 1, o - j);
    }
}

/// After a pass a place has the key of one of its pair.
proof fn keys_of_pass<T: Ranked>(s: Seq<T>, k: int, j: int, x: int)
    requires
        0 <= x < s.len(),
        j > 0,
        k > 0,
        k % (2 * j) == 0,
        s.len() as int % (2 * j) == 0,
    ensures
        keys(pass(s, k, j), k)[x] == keys(s, k)[pair_start(x, j)] || keys(pass(s, k, j), k)[x]
            == keys(s, k)[pair_start(x, j) + j],
{
    let n = s.len() as int;
    pair_fits(x, j, n);
    pair_in_block(x, j, n);
    same_block(x, pair_start(x, j), 2 * j, k);
    same_block(x, pair_start(x, j) + j, 2 * j, k);
}

/// The passes of a stage sort its blocks.
proof fn passes_merge<T: Ranked>(s: Seq<T>, k: int, j: int)
    requires
        all_ranked(s),
        is_pow2(k),
        is_pow2(s.len() as int),
        k <= s.len(),
        j == 0 || is_pow2(j),
        2 * j <= k,
        0 <= j,
        merging(
            keys(s, k),
            k,
            if j > 0 {
                2 * j
            } else {
                1
            },
        ),
    ensures
        merging(keys(passes(s, k, j), k), k, 1),
        all_ranked(passes(s, k, j)),
        passes(s, k, j).len() == s.len(),
        passes(s, k, j).to_multiset() == s.to_multiset(),
    decreases j,
{
    if j > 0 {
        pow2_doubles(j);
        pow2_divides(2 * j, k);
        pow2_divides(2 * j, s.len() as int);
        pass_merges(s, k, j);
        pass_permutes(s, k, j);
        passes_merge(pass(s, k, j), k, j / 2);
    }
}

/// Every block of `h` places is sorted, best first or best last by turns.
spec fn runs_sorted<T: Ranked>(s: Seq<T>, h: int) -> bool {
    let ks = keys(s, h);
    forall|i: int, j: int|
        0 <= i <= j < s.len() && i / h == j / h ==> #[trigger] ks[i] <= #[trigger] ks[j]
}

/// Two sorted runs, the first best first and the second best last, make a bitonic block.
proof fn runs_make_bitonic_blocks<T: Ranked>(s: Seq<T>, h: int)
    requires
        h > 0,
        runs_sorted(s, h),
        s.len() as int % (2 * h) == 0,
    ensures
        merging(keys(s, 2 * h), 2 * h, 2 * h),
{
    let k = 2 * h;
    let ks = keys(s, k);
    let hs = keys(s, h);
    let rs = Seq::new(s.len(), |i: int| s[i].rank());
    assert forall|q: int| 0 <= q && (q + 1) * k <= ks.len() implies #[trigger] block_bitonic(
        ks,
        q,
        k,
    ) by {
        let lo = q * k;
        assert((q + 1) * k == lo + k) by (nonlinear_arith)
            requires
                lo == q * k,
        ;
        place(q, k, 0);
        assert forall|x: int, y: int| 0 <= x <= y < h implies #[trigger] rs[lo + x]
            <= #[trigger] rs[lo + y] by {
            place(q, k, x);
            place(q, k, y);
            halves_by_block(lo + x, h);
            halves_by_block(lo + y, h);
            assert(hs[lo + x] <= hs[lo + y]);
        }
        assert forall|x: int, y: int| 0 <= x <= y < h implies #[trigger] rs[lo + h + x]
            >= #[trigger] rs[lo + h + y] by {
            place(q, k, h + x);
            place(q, k, h + y);
            assert(lo + h + x == lo + (h + x));
            assert(lo + h + y == lo + (h + y));
            halves_by_block(lo + h + x, h);
            halves_by_block(lo + h + y, h);
            assert(hs[lo + h + x] <= hs[lo + h + y]);
        }
        up_and_down_is_bitonic(rs, lo, h);
        assert forall|i: int| 0 <= i < k implies is_up(#[trigger] (lo + i), k) == is_up(lo, k) by {
            place(q, k, i);
            up_by_block(lo + i, k);
            up_by_block(lo, k);
        }
        if is_up(lo, k) {
            assert forall|i: int| 0 <= i < k implies #[trigger] ks[lo + i] == rs[lo + i] by {
                assert(is_up(lo + i, k));
            }
            same_is_bitonic(rs, ks, lo, k);
        } else {
            assert forall|i: int| 0 <= i < k implies #[trigger] ks[lo + i] == -rs[lo + i] by {
                assert(!is_up(lo + i, k));
            }
            turned_is_bitonic(rs, ks, lo, k);
        }
    }
}

proof fn stages_sort<T: Ranked>(s: Seq<T>, n: int, k: int)
    requires
        all_ranked(s),
        n == s.len(),
        is_pow2(n),
        is_pow2(k),
        2 <= k <= 2 * n,
        runs_sorted(s, k / 2),
    ensures
        sorted(stages(s, n, k)),
        stages(s, n, k).to_multiset() == s.to_multiset(),
    decreases 2 * n - k,
{
    if k <= n {
        let h = k / 2;
        pow2_divides(k, n);
        runs_make_bitonic_blocks(s, h);
        passes_merge(s, k, h);
        let t = passes(s, k, h);
        let ks = keys(t, k);
        assert forall|i: int, j: int| 0 <= i <= j < t.len() && i / k == j / k implies #[trigger]
        ks[i] <= #[trigger] ks[j] by {
            if i < j {
                assert(i / 1 != j / 1);
            }
        }
        pow2_doubles(k);
        if k < n {
            pow2_divides(k, n);
        }
        stages_sort(t, n, 2 * k);
    } else {
        pow2_divides(n, k);
        assert(k == 2 * n) by {
            if k < 2 * n {
                pow2_doubles(n);
                pow2_divides(k, 2 * n);
            }
        }
        let ks = keys(s, n);
        assert forall|i: int, j: int| 0 <= i <= j < s.len() implies (#[trigger] s[i]).rank() <= (
        #[trigger] s[j]).rank() by {
            vstd::arithmetic::div_mod::lemma_small_mod(i as nat, (2 * n) as nat);
            vstd::arithmetic::div_mod::lemma_small_mod(j as nat, (2 * n) as nat);
            vstd::arithmetic::div_mod::lemma_basic_div(i, n);
            vstd::arithmetic::div_mod::lemma_basic_div(j, n);
            assert(ks[i] <= ks[j]);
        }
    }
}

/// The network sorts any number of ranked items that is a power of two, and loses none.
pub proof fn network_sorts<T: Ranked>(s: Seq<T>)
    requires
        is_pow2(s.len() as int),
        all_ranked(s),
    ensures
        sorted(network(s)),
        network(s).to_multiset() == s.to_multiset(),
{
    pow2_doubles(1);
    let ks = keys(s, 1);
    assert forall|i: int, j: int| 0 <= i <= j < s.len() && i / 1 == j / 1 implies #[trigger] ks[i]
        <= #[trigger] ks[j] by {
        assert(i == j);
    }
    stages_sort(s, s.len() as int, 2);
}

proof fn passes_permute<T: Ranked>(s: Seq<T>, k: int, j: int)
    requires
        is_pow2(s.len() as int),
        j == 0 || is_pow2(j),
        0 <= j,
        2 * j <= s.len(),
    ensures
        passes(s, k, j).len() == s.len(),
        passes(s, k, j).to_multiset() == s.to_multiset(),
    decreases j,
{
    if j > 0 {
        pow2_doubles(j);
        pow2_divides(2 * j, s.len() as int);
        pass_permutes(s, k, j);
        passes_permute(pass(s, k, j), k, j / 2);
    }
}

proof fn stages_permute<T: Ranked>(s: Seq<T>, n: int, k: int)
    requires
        n == s.len(),
        is_pow2(n),
        is_pow2(k),
        2 <= k,
    ensures
        stages(s, n, k).len() == s.len(),
        stages(s, n, k).to_multiset() == s.to_multiset(),
    decreases 2 * n - k,
{
    if k <= n {
        passes_permute(s, k, k / 2);
        pow2_doubles(k);
        stages_permute(passes(s, k, k / 2), n, 2 * k);
    }
}

/// The network only rearranges: whatever the items, none is lost and none is made up.
pub proof fn network_permutes<T: Ranked>(s: Seq<T>)
    requires
        is_pow2(s.len() as int),
    ensures
        network(s).len() == s.len(),
        network(s).to_multiset() == s.to_multiset(),
{
    pow2_doubles(1);
    stages_permute(s, s.len() as int, 2);
}

} // verus!
