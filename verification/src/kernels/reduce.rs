//! The largest of the numbers that the threads of a block hold, found by halving.
use vstd::prelude::*;

use crate::kernels::float::{float_gt, gt, is_nan, key};
use crate::pow2::is_pow2;

verus! {

/// A size with the number that has it, both as bits.
#[derive(Clone, Copy, Debug, PartialEq, Eq, Structural)]
pub struct Peak {
    pub abs: u32,
    pub val: u32,
}

/// A number without its minus sign: minus zero and what is not a number stay as they are.
pub open spec fn abs_bits(v: u32) -> u32 {
    if !is_nan(v) && v > 0x8000_0000 {
        (v - 0x8000_0000) as u32
    } else {
        v
    }
}

/// The size of a number.
pub fn float_abs(v: u32) -> (r: u32)
    ensures
        r == abs_bits(v),
{
    if !crate::kernels::float::float_is_nan(v) && v > 0x8000_0000 {
        v - 0x8000_0000
    } else {
        v
    }
}

/// The larger of two; of equal ones the second where `late`, else the first.
pub open spec fn larger(a: Peak, b: Peak, late: bool) -> Peak {
    if late {
        if gt(a.abs, b.abs) {
            a
        } else {
            b
        }
    } else {
        if gt(b.abs, a.abs) {
            b
        } else {
            a
        }
    }
}

/// Each of the first half with its partner in the second half.
pub open spec fn halved(s: Seq<Peak>, late: bool) -> Seq<Peak> {
    Seq::new(s.len() / 2, |i: int| larger(s[i], s[i + s.len() as int / 2], late))
}

/// What halving leaves.
pub open spec fn peak_of(s: Seq<Peak>, late: bool) -> Peak
    decreases s.len(),
{
    if s.len() <= 1 {
        s[0]
    } else {
        peak_of(halved(s, late), late)
    }
}

/// The largest of the numbers, found by halving.
pub fn find_peak(peaks: &Vec<Peak>, late: bool) -> (r: Peak)
    requires
        is_pow2(peaks.len() as int),
    ensures
        r == peak_of(peaks@, late),
{
    let mut s: Vec<Peak> = Vec::new();
    let mut c: usize = 0;
    while c < peaks.len()
        invariant
            c <= peaks@.len(),
            s@ =~= peaks@.take(c as int),
        decreases peaks@.len() - c,
    {
        s.push(peaks[c]);
        c = c + 1;
    }
    assert(s@ =~= peaks@);
    while s.len() > 1
        invariant
            is_pow2(s.len() as int),
            peak_of(s@, late) == peak_of(peaks@, late),
        decreases s.len(),
    {
        let half: usize = s.len() / 2;
        let mut next: Vec<Peak> = Vec::new();
        let mut i: usize = 0;
        while i < half
            invariant
                i <= half,
                half == s.len() / 2,
                next@ =~= halved(s@, late).take(i as int),
            decreases half - i,
        {
            let a: Peak = s[i];
            let b: Peak = s[i + half];
            let p: Peak = if late {
                if float_gt(a.abs, b.abs) {
                    a
                } else {
                    b
                }
            } else {
                if float_gt(b.abs, a.abs) {
                    b
                } else {
                    a
                }
            };
            next.push(p);
            i = i + 1;
        }
        assert(next@ =~= halved(s@, late));
        s = next;
    }
    s[0]
}

/// The sizes of the `n` numbers from `at` on, with zeros behind them up to `size`.
pub open spec fn peaks_from(x: Seq<u32>, at: int, n: int, size: nat) -> Seq<Peak> {
    Seq::new(
        size,
        |i: int|
            if i < n {
                Peak { abs: abs_bits(x[at + i]), val: x[at + i] }
            } else {
                Peak { abs: 0, val: 0 }
            },
    )
}

/// The largest of the `n` numbers from `at` on, by size, as a block of `size` threads finds it.
pub fn block_peak(x: &[u32], at: usize, n: usize, size: usize, late: bool) -> (r: Peak)
    requires
        n <= size,
        is_pow2(size as int),
        at + n <= x.len(),
    ensures
        r == peak_of(peaks_from(x@, at as int, n as int, size as nat), late),
{
    let mut peaks: Vec<Peak> = Vec::new();
    let mut i: usize = 0;
    while i < size
        invariant
            i <= size,
            n <= size,
            at + n <= x.len(),
            peaks@ =~= peaks_from(x@, at as int, n as int, i as nat),
        decreases size - i,
    {
        if i < n {
            let v: u32 = x[at + i];
            peaks.push(Peak { abs: float_abs(v), val: v });
        } else {
            peaks.push(Peak { abs: 0, val: 0 });
        }
        i = i + 1;
    }
    find_peak(&peaks, late)
}

/// The result of halving is one of the numbers, and none is larger.
pub proof fn halving_finds_the_largest(s: Seq<Peak>, late: bool)
    requires
        is_pow2(s.len() as int),
        forall|i: int| 0 <= i < s.len() ==> !is_nan((#[trigger] s[i]).abs),
    ensures
        s.contains(peak_of(s, late)),
        forall|i: int| 0 <= i < s.len() ==> key((#[trigger] s[i]).abs) <= key(peak_of(s, late).abs),
    decreases s.len(),
{
    if s.len() > 1 {
        let h = halved(s, late);
        let n = s.len() as int / 2;
        assert forall|i: int| 0 <= i < h.len() implies !is_nan((#[trigger] h[i]).abs) by {
            assert(!is_nan(s[i].abs) && !is_nan(s[i + n].abs));
        }
        halving_finds_the_largest(h, late);
        let x = choose|x: int| 0 <= x < h.len() && h[x] == peak_of(h, late);
        assert(s[x] == h[x] || s[x + n] == h[x]);
        assert(s.contains(peak_of(s, late)));
        assert forall|i: int| 0 <= i < s.len() implies key((#[trigger] s[i]).abs) <= key(
            peak_of(s, late).abs,
        ) by {
            let j = if i < n {
                i
            } else {
                i - n
            };
            assert(!is_nan(s[j].abs) && !is_nan(s[j + n].abs));
            assert(key(h[j].abs) >= key(s[i].abs));
        }
    } else {
        assert(s[0] == peak_of(s, late));
    }
}

} // verus!
