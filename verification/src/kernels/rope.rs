//! Which pairs of numbers are rotated.
use vstd::prelude::*;

verus! {

/// A pair to be rotated: its token, its place among the pairs of a head, and where it stands.
#[derive(Clone, Copy, Debug, PartialEq, Eq, Structural)]
pub struct RotatedPair {
    pub t: usize,
    pub pair: usize,
    pub at: usize,
}

/// The vectors of `n_tok` tokens fit in memory.
pub open spec fn heads_fit(n_tok: int, n_head: int, head_dim: int) -> bool {
    n_tok * n_head * head_dim <= usize::MAX
}

/// The pair that thread `gid` rotates, for heads of `head_dim` numbers of which the last `n_rot`
/// are rotated.
pub open spec fn rotated_pair(gid: int, n_head: int, head_dim: int, n_rot: int) -> RotatedPair {
    let row = gid / (n_rot / 2);
    let pair = gid % (n_rot / 2);
    RotatedPair {
        t: (row / n_head) as usize,
        pair: pair as usize,
        at: (row * head_dim + (head_dim - n_rot) + 2 * pair) as usize,
    }
}

/// The pair that thread `gid` rotates: pairs lie in the last `n_rot` numbers of each head.
pub fn rope_tail(
    gid: usize,
    n_tok: usize,
    n_head: usize,
    head_dim: usize,
    n_rot: usize,
) -> (p: RotatedPair)
    requires
        n_rot <= head_dim,
        gid < n_tok * n_head * (n_rot as int / 2),
        heads_fit(n_tok as int, n_head as int, head_dim as int),
    ensures
        p.pair == gid as int % (n_rot as int / 2),
        p.t == (gid as int / (n_rot as int / 2)) / n_head as int,
        p.at == (gid as int / (n_rot as int / 2)) * head_dim + (head_dim - n_rot) + 2 * p.pair,
        p.t < n_tok,
        p.pair < n_rot as int / 2,
        p.at + 1 < n_tok * n_head * head_dim,
        p == rotated_pair(gid as int, n_head as int, head_dim as int, n_rot as int),
{
    let half: usize = n_rot / 2;
    proof {
        if half == 0 {
            assert(n_tok * n_head * half == 0) by (nonlinear_arith)
                requires
                    half == 0,
            ;
        }
        if n_head == 0 {
            assert(n_tok * n_head * half == 0) by (nonlinear_arith)
                requires
                    n_head == 0,
            ;
        }
    }
    let pair: usize = gid % half;
    let row: usize = gid / half;
    let t: usize = row / n_head;
    proof {
        let rows = n_tok * n_head;
        vstd::arithmetic::div_mod::lemma_fundamental_div_mod(gid as int, half as int);
        assert(0 <= row < rows) by (nonlinear_arith)
            requires
                gid == half * row + pair,
                0 <= pair < half,
                gid < rows * half,
        ;
        vstd::arithmetic::div_mod::lemma_fundamental_div_mod(row as int, n_head as int);
        let h = row as int % n_head as int;
        assert(t < n_tok) by (nonlinear_arith)
            requires
                row == n_head * t + h,
                0 <= h,
                row < n_tok * n_head,
                n_head > 0,
        ;
        assert(0 <= row * head_dim && row * head_dim + head_dim <= rows * head_dim)
            by (nonlinear_arith)
            requires
                0 <= row,
                row + 1 <= rows,
        ;
    }
    RotatedPair { t, pair, at: row * head_dim + (head_dim - n_rot) + 2 * pair }
}

/// Rotation leaves the first numbers of a head alone and stays inside the head.
pub proof fn rotation_stays_in_the_tail(row: int, pair: int, head_dim: int, n_rot: int)
    requires
        0 <= n_rot <= head_dim,
        0 <= pair < n_rot / 2,
    ensures
        row * head_dim + (head_dim - n_rot) <= row * head_dim + (head_dim - n_rot) + 2 * pair,
        row * head_dim + (head_dim - n_rot) + 2 * pair + 1 < row * head_dim + head_dim,
{
}

/// Threads take the pairs of a head one after the other, the heads of a token one after the other,
/// and then those of the next token; the pairs end with the head.
pub proof fn threads_take_pairs_in_order(
    t: int,
    h: int,
    pair: int,
    n_head: int,
    head_dim: int,
    n_rot: int,
)
    requires
        0 <= t,
        0 <= h < n_head,
        0 <= n_rot <= head_dim,
        0 <= pair < n_rot / 2,
        (t + 1) * n_head * head_dim <= usize::MAX,
    ensures
        ({
            let head = n_head * t + h;
            let p = rotated_pair(head * (n_rot / 2) + pair, n_head, head_dim, n_rot);
            &&& p.t == t
            &&& p.pair == pair
            &&& p.at == head_dim * (head + 1) - n_rot + 2 * pair
        }),
{
    let half = n_rot / 2;
    let head = n_head * t + h;
    vstd::arithmetic::div_mod::lemma_fundamental_div_mod_converse(
        head * half + pair,
        half,
        head,
        pair,
    );
    assert(n_head * t == t * n_head) by (nonlinear_arith);
    vstd::arithmetic::div_mod::lemma_fundamental_div_mod_converse(head, n_head, t, h);
    assert((t + 1) * n_head == t * n_head + n_head) by (nonlinear_arith);
    assert(head_dim * (head + 1) == head * head_dim + head_dim) by (nonlinear_arith);
    assert(0 <= t * n_head) by (nonlinear_arith)
        requires
            0 <= t,
            0 <= n_head,
    ;
    assert(0 <= head * head_dim && (head + 1) * head_dim <= ((t + 1) * n_head) * head_dim)
        by (nonlinear_arith)
        requires
            0 <= head,
            head + 1 <= (t + 1) * n_head,
            0 <= head_dim,
    ;
    assert((head + 1) * head_dim == head * head_dim + head_dim) by (nonlinear_arith);
    assert(t <= head && head <= head * head_dim) by (nonlinear_arith)
        requires
            head == n_head * t + h,
            0 <= h,
            0 <= t,
            1 <= n_head,
            1 <= head_dim,
    ;
}

/// Different threads rotate different numbers.
pub proof fn rotated_pairs_differ(
    row: int,
    pair: int,
    other_row: int,
    other: int,
    head_dim: int,
    n_rot: int,
)
    requires
        0 <= n_rot <= head_dim,
        0 <= pair < n_rot / 2,
        0 <= other < n_rot / 2,
        row != other_row || pair != other,
    ensures
        ({
            let a = row * head_dim + (head_dim - n_rot) + 2 * pair;
            let b = other_row * head_dim + (head_dim - n_rot) + 2 * other;
            a + 1 < b || b + 1 < a
        }),
{
    if row < other_row {
        assert(row * head_dim + head_dim <= other_row * head_dim) by (nonlinear_arith)
            requires
                row + 1 <= other_row,
                head_dim >= 0,
        ;
    } else if other_row < row {
        assert(other_row * head_dim + head_dim <= row * head_dim) by (nonlinear_arith)
            requires
                other_row + 1 <= row,
                head_dim >= 0,
        ;
    }
}

} // verus!
