//! Powers of two.
use vstd::prelude::*;

verus! {

/// `n` is a power of two.
pub open spec fn is_pow2(n: int) -> bool
    decreases n,
{
    n == 1 || (n > 1 && n % 2 == 0 && is_pow2(n / 2))
}

/// Twice a power of two is a power of two.
pub proof fn pow2_doubles(n: int)
    requires
        is_pow2(n),
    ensures
        is_pow2(2 * n),
        n >= 1,
{
    assert((2 * n) / 2 == n);
}

/// Of two powers of two the larger is a multiple of the smaller.
pub proof fn pow2_divides(a: int, b: int)
    requires
        is_pow2(a),
        is_pow2(b),
        a <= b,
    ensures
        b % a == 0,
        a < b ==> 2 * a <= b,
    decreases b,
{
    if a < b {
        if a == 1 {
        } else {
            pow2_divides(a / 2, b / 2);
            let x = a / 2;
            let y = b / 2;
            vstd::arithmetic::div_mod::lemma_fundamental_div_mod(y, x);
            assert(2 * y == (2 * x) * (y / x)) by (nonlinear_arith)
                requires
                    y == x * (y / x),
            ;
            vstd::arithmetic::div_mod::lemma_mod_multiples_basic(y / x, 2 * x);
            assert((2 * x) * (y / x) == (y / x) * (2 * x)) by (nonlinear_arith);
        }
    } else {
        assert(b % a == 0) by (nonlinear_arith)
            requires
                a == b,
                a >= 1,
        ;
    }
}

/// The smallest power of two that is at least `n`.
pub open spec fn is_next_pow2(p: int, n: int) -> bool {
    is_pow2(p) && n <= p && (p == 1 || p / 2 < n)
}

/// There is only one such power.
pub proof fn next_pow2_is_unique(p: int, q: int, n: int)
    requires
        is_next_pow2(p, n),
        is_next_pow2(q, n),
    ensures
        p == q,
{
    if p < q {
        pow2_divides(p, q);
    } else if q < p {
        pow2_divides(q, p);
    }
}

/// A power of two is its own next power; the next power of any number is below its double.
pub proof fn powers_are_their_own_next(p: int, n: int)
    requires
        n >= 1,
        is_next_pow2(p, n),
    ensures
        is_pow2(n) ==> p == n,
        n <= p < 2 * n,
{
    if is_pow2(n) {
        next_pow2_is_unique(p, n, n);
    }
}

/// The smallest power of two that is at least `n`.
pub open spec fn next_pow2(n: int) -> int {
    choose|p: int| is_next_pow2(p, n)
}

/// The smallest power of two that is at least `n`.
pub fn next_power_of_two(n: u32) -> (p: u32)
    requires
        n <= 0x8000_0000,
    ensures
        is_next_pow2(p as int, n as int),
        p == next_pow2(n as int),
{
    let mut p: u32 = 1;
    while p < n
        invariant
            n <= 0x8000_0000,
            is_pow2(p as int),
            p == 1 || p / 2 < n,
        decreases 0x1_0000_0000 - p,
    {
        proof {
            pow2_doubles(p as int);
        }
        p = 2 * p;
    }
    proof {
        next_pow2_is_unique(p as int, next_pow2(n as int), n as int);
    }
    p
}

} // verus!
