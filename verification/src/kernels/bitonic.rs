//! The bitonic sorting network.
//!
//! The network compares and exchanges fixed pairs of places. Stage `k` turns every block of `k`
//! places into a sorted run, alternately best first and best last; its passes compare places at
//! distances `k / 2`, `k / 4`, down to 1. After the stage for all places the whole is sorted.
use vstd::prelude::*;

use crate::pow2::{is_pow2, pow2_divides, pow2_doubles};

verus! {

/// What can be sorted: an item goes before another if its rank is lower. Items that are not
/// `ranked` compare in some way that need not be an order.
pub trait Ranked: Copy {
    spec fn rank(self) -> int;

    spec fn ranked(self) -> bool;

    spec fn before(self, other: Self) -> bool;

    proof fn before_is_by_rank(self, other: Self)
        requires
            self.ranked(),
            other.ranked(),
        ensures
            self.before(other) == (self.rank() < other.rank()),
    ;

    fn goes_before(self, other: Self) -> (r: bool)
        ensures
            r == self.before(other),
    ;
}

/// The place is the first of its pair at distance `j`.
pub open spec fn is_first(i: int, j: int) -> bool {
    i % (2 * j) < j
}

/// The place belongs to a run of stage `k` that is sorted best first.
pub open spec fn is_up(i: int, k: int) -> bool {
    i % (2 * k) < k
}

/// The first place of the pair that `i` belongs to.
pub open spec fn pair_start(i: int, j: int) -> int {
    if is_first(i, j) {
        i
    } else {
        i - j
    }
}

/// The two items of a pair change places.
pub open spec fn exchanges<T: Ranked>(s: Seq<T>, k: int, j: int, lo: int) -> bool {
    if is_up(lo, k) {
        s[lo + j].before(s[lo])
    } else {
        s[lo].before(s[lo + j])
    }
}

/// One pass: all pairs at distance `j` are compared and, where out of order, exchanged.
pub open spec fn pass<T: Ranked>(s: Seq<T>, k: int, j: int) -> Seq<T> {
    Seq::new(
        s.len(),
        |i: int|
            {
                let lo = pair_start(i, j);
                if exchanges(s, k, j, lo) == (i == lo) {
                    s[lo + j]
                } else {
                    s[lo]
                }
            },
    )
}

/// The passes of stage `k` from distance `j` down.
pub open spec fn passes<T: Ranked>(s: Seq<T>, k: int, j: int) -> Seq<T>
    decreases j,
{
    if j <= 0 {
        s
    } else {
        passes(pass(s, k, j), k, j / 2)
    }
}

/// The stages from `k` on, for `n` places.
pub open spec fn stages<T: Ranked>(s: Seq<T>, n: int, k: int) -> Seq<T>
    decreases 2 * n - k,
{
    if k < 2 || k > n {
        s
    } else {
        stages(passes(s, k, k / 2), n, 2 * k)
    }
}

/// The whole network.
pub open spec fn network<T: Ranked>(s: Seq<T>) -> Seq<T> {
    stages(s, s.len() as int, 2)
}

/// Ranks rise, or stay, from place to place.
pub open spec fn sorted<T: Ranked>(s: Seq<T>) -> bool {
    forall|i: int, j: int|
        0 <= i <= j < s.len() ==> (#[trigger] s[i]).rank() <= (#[trigger] s[j]).rank()
}

/// All items are ranked.
pub open spec fn all_ranked<T: Ranked>(s: Seq<T>) -> bool {
    forall|i: int| 0 <= i < s.len() ==> (#[trigger] s[i]).ranked()
}

/// A pair lies within its aligned block, and the blocks fill the places.
pub proof fn pair_fits(i: int, j: int, n: int)
    requires
        0 <= i < n,
        j > 0,
        n % (2 * j) == 0,
    ensures
        0 <= pair_start(i, j),
        pair_start(i, j) + j < n,
        is_first(pair_start(i, j), j),
        !is_first(pair_start(i, j) + j, j),
        i == pair_start(i, j) || i == pair_start(i, j) + j,
        pair_start(pair_start(i, j) + j, j) == pair_start(i, j),
{
    let w = 2 * j;
    let o = i % w;
    let b = i - o;
    vstd::arithmetic::div_mod::lemma_fundamental_div_mod(i, w);
    vstd::arithmetic::div_mod::lemma_fundamental_div_mod(n, w);
    let q = i / w;
    let m = n / w;
    assert(b == w * q);
    assert(q < m) by (nonlinear_arith)
        requires
            w * q <= i,
            i < n,
            n == w * m,
            w > 0,
    ;
    assert(w * q + w <= n) by (nonlinear_arith)
        requires
            q + 1 <= m,
            n == w * m,
            w > 0,
    ;
    assert(w * q == q * w) by (nonlinear_arith);
    let lo = pair_start(i, j);
    let p = lo - b;
    assert(0 <= p < j);
    assert(lo % w == p) by {
        vstd::arithmetic::div_mod::lemma_fundamental_div_mod_converse(lo, w, q, p);
    }
    assert((lo + j) % w == p + j) by {
        vstd::arithmetic::div_mod::lemma_fundamental_div_mod_converse(lo + j, w, q, p + j);
    }
}

/// Sorts with the network.
pub fn bitonic_sort<T: Ranked>(v: &mut Vec<T>)
    requires
        is_pow2(old(v)@.len() as int),
        old(v).len() <= 0x4000_0000,
    ensures
        final(v)@ == network(old(v)@),
{
    let n: usize = v.len();
    let mut k: usize = 2;
    let ghost start = v@;
    proof {
        pow2_doubles(1);
    }
    while k <= n
        invariant
            n == v@.len(),
            n <= 0x4000_0000,
            is_pow2(n as int),
            is_pow2(k as int),
            2 <= k,
            network(start) == stages(v@, n as int, k as int),
        decreases 2 * n - k,
    {
        let mut j: usize = k / 2;
        let ghost before = v@;
        while j > 0
            invariant
                n == v@.len(),
                n <= 0x4000_0000,
                2 <= k <= n,
                is_pow2(n as int),
                is_pow2(k as int),
                j == 0 || is_pow2(j as int),
                j < k,
                passes(before, k as int, k as int / 2) == passes(v@, k as int, j as int),
            decreases j,
        {
            proof {
                pow2_doubles(j as int);
                pow2_divides(j as int, k as int);
                pow2_divides(2 * j as int, n as int);
            }
            run_pass(v, k, j);
            j = j / 2;
        }
        proof {
            pow2_doubles(k as int);
        }
        k = 2 * k;
    }
}

/// One pass of the network.
fn run_pass<T: Ranked>(v: &mut Vec<T>, k: usize, j: usize)
    requires
        old(v).len() <= 0x4000_0000,
        0 < j < k <= old(v).len(),
        old(v)@.len() as int % (2 * j) == 0,
    ensures
        final(v)@ == pass(old(v)@, k as int, j as int),
        final(v)@.len() == old(v)@.len(),
{
    let n: usize = v.len();
    let ghost s = v@;
    let mut i: usize = 0;
    assert forall|x: int| 0 <= x < n implies 0 <= #[trigger] pair_start(x, j as int) by {
        pair_fits(x, j as int, n as int);
    }
    while i < n
        invariant
            n == v@.len(),
            n == s.len(),
            n <= 0x4000_0000,
            0 < j < k <= n,
            n as int % (2 * j) == 0,
            i <= n,
            forall|x: int|
                0 <= x < n ==> #[trigger] v@[x] == if pair_start(x, j as int) < i {
                    pass(s, k as int, j as int)[x]
                } else {
                    s[x]
                },
        decreases n - i,
    {
        if i % (2 * j) < j {
            proof {
                pair_fits(i as int, j as int, n as int);
            }
            let a: T = v[i];
            let b: T = v[i + j];
            let up: bool = i % (2 * k) < k;
            let swap: bool = if up {
                b.goes_before(a)
            } else {
                a.goes_before(b)
            };
            if swap {
                v.set(i, b);
                v.set(i + j, a);
            }
            assert forall|x: int| 0 <= x < n implies #[trigger] v@[x] == if pair_start(x, j as int)
                < i + 1 {
                pass(s, k as int, j as int)[x]
            } else {
                s[x]
            } by {
                pair_fits(x, j as int, n as int);
            }
        } else {
            assert forall|x: int| 0 <= x < n && pair_start(x, j as int) == i implies false by {
                pair_fits(x, j as int, n as int);
            }
        }
        i = i + 1;
    }
    assert forall|x: int| 0 <= x < n implies pair_start(x, j as int) < n by {
        pair_fits(x, j as int, n as int);
    }
    assert(v@ =~= pass(s, k as int, j as int));
}

} // verus!
