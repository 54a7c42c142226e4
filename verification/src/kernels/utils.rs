//! Conversions between 16-bit and 32-bit floating-point patterns, and plain data movement.
use vstd::prelude::*;

verus! {

/// The 32-bit pattern of a 16-bit number. Numbers below the normal range become zero.
pub open spec fn widened(h: u16) -> u32 {
    let sign = (h / 0x8000) as int;
    let exp = ((h / 0x400) % 32) as int;
    let mant = (h % 0x400) as int;
    (sign * 0x8000_0000 + if exp == 0 {
        0
    } else if exp == 31 {
        0x7F80_0000 + mant * 0x2000
    } else {
        (exp + 112) * 0x80_0000 + mant * 0x2000
    }) as u32
}

/// The 16-bit pattern of a 32-bit number, rounded toward zero. Numbers below the normal range
/// become zero, numbers above it infinity.
pub open spec fn narrowed(b: u32) -> u16 {
    let sign = (b / 0x8000_0000) as int;
    let exp = ((b / 0x80_0000) % 256) as int;
    let mant = ((b / 0x2000) % 0x400) as int;
    (sign * 0x8000 + if exp < 113 {
        0
    } else if exp > 142 {
        0x7C00
    } else {
        (exp - 112) * 0x400 + mant
    }) as u16
}

/// A 32-bit number with 16-bit precision.
pub open spec fn rounded(b: u32) -> u32 {
    widened(narrowed(b))
}

/// The 32-bit pattern of a 16-bit number.
pub fn f16_bits_to_f32(h: u16) -> (r: u32)
    ensures
        r == widened(h),
{
    let sign: u32 = (h / 0x8000) as u32 * 0x8000_0000;
    let exp: u32 = ((h / 0x400) % 32) as u32;
    let mant: u32 = (h % 0x400) as u32;
    if exp == 0 {
        sign
    } else if exp == 31 {
        sign + 0x7F80_0000 + mant * 0x2000
    } else {
        sign + (exp + 112) * 0x80_0000 + mant * 0x2000
    }
}

/// The 16-bit pattern of a 32-bit number, rounded toward zero.
pub fn f32_to_f16_bits(b: u32) -> (r: u16)
    ensures
        r == narrowed(b),
{
    let sign: u16 = (b / 0x8000_0000) as u16 * 0x8000;
    let exp: u32 = (b / 0x80_0000) % 256;
    let mant: u32 = (b / 0x2000) % 0x400;
    if exp < 113 {
        sign
    } else if exp > 142 {
        sign + 0x7C00
    } else {
        sign + ((exp - 112) * 0x400 + mant) as u16
    }
}

/// Widening and narrowing again changes nothing, for zeros, normal numbers and infinities.
pub proof fn narrowing_undoes_widening(h: u16)
    requires
        0 < (h / 0x400) % 32 < 31 || h % 0x400 == 0,
    ensures
        narrowed(widened(h)) == h,
{
}

/// Rounding to 16 bits a second time changes nothing.
pub proof fn rounding_is_idempotent(b: u32)
    ensures
        rounded(rounded(b)) == rounded(b),
{
    let h = narrowed(b);
    let exp = ((b / 0x80_0000) % 256) as int;
    if exp < 113 {
        assert(h % 0x8000 == 0);
    } else if exp > 142 {
        assert(h % 0x8000 == 0x7C00);
    } else {
        assert(h % 0x8000 == (exp - 112) * 0x400 + (b / 0x2000) % 0x400);
    }
    narrowing_undoes_widening(h);
}

/// Fills a buffer with one value.
pub fn fill_f32(x: &mut Vec<u32>, v: u32)
    ensures
        final(x)@ == Seq::new(old(x)@.len(), |i: int| v),
{
    let n: usize = x.len();
    let mut i: usize = 0;
    while i < n
        invariant
            i <= n,
            n == x@.len(),
            forall|k: int| 0 <= k < i ==> #[trigger] x@[k] == v,
        decreases n - i,
    {
        x.set(i, v);
        i = i + 1;
    }
    assert(x@ =~= Seq::new(old(x)@.len(), |i: int| v));
}

/// Fills a buffer with zeros.
pub fn zero_f32(x: &mut Vec<u32>)
    ensures
        final(x)@ == Seq::new(old(x)@.len(), |i: int| 0u32),
{
    fill_f32(x, 0);
}

/// `out` with `row` written from `at` on.
pub open spec fn written<T>(out: Seq<T>, at: int, row: Seq<T>) -> Seq<T> {
    Seq::new(
        out.len(),
        |i: int|
            if at <= i < at + row.len() {
                row[i - at]
            } else {
                out[i]
            },
    )
}

/// Copies `src` to `dst`, from element `dst_offset` on.
pub fn copy_f32_at_offset(src: &[u32], dst: &mut Vec<u32>, dst_offset: usize)
    requires
        dst_offset + src.len() <= old(dst).len(),
    ensures
        final(dst)@ == written(old(dst)@, dst_offset as int, src@),
{
    let ghost start = dst@;
    let n: usize = src.len();
    let mut i: usize = 0;
    while i < n
        invariant
            i <= n,
            n == src@.len(),
            dst_offset + n <= dst@.len(),
            dst_offset + n <= usize::MAX,
            dst@.len() == start.len(),
            forall|x: int|
                0 <= x < dst@.len() ==> #[trigger] dst@[x] == if dst_offset <= x < dst_offset + i {
                    src@[x - dst_offset]
                } else {
                    start[x]
                },
        decreases n - i,
    {
        dst.set(dst_offset + i, src[i]);
        i = i + 1;
    }
    assert(dst@ =~= written(start, dst_offset as int, src@));
}

/// Converts numbers to 16 bits.
pub fn f32_to_f16(x: &[u32]) -> (out: Vec<u16>)
    ensures
        out@ == x@.map_values(|b: u32| narrowed(b)),
{
    let mut out: Vec<u16> = Vec::new();
    let mut i: usize = 0;
    while i < x.len()
        invariant
            i <= x@.len(),
            out@ =~= x@.take(i as int).map_values(|b: u32| narrowed(b)),
        decreases x@.len() - i,
    {
        out.push(f32_to_f16_bits(x[i]));
        i = i + 1;
    }
    assert(x@.take(i as int) =~= x@);
    out
}

/// Repeats a row of `n_embd` elements `n_hc` times.
pub fn repeat_hc(row: &[u32], n_embd: usize, n_hc: usize) -> (out: Vec<u32>)
    requires
        0 < n_embd <= row.len(),
        n_embd * n_hc <= usize::MAX,
    ensures
        out@ == Seq::new((n_embd * n_hc) as nat, |i: int| row@[i % n_embd as int]),
{
    let n: usize = n_embd * n_hc;
    let mut out: Vec<u32> = Vec::new();
    let mut i: usize = 0;
    while i < n
        invariant
            i <= n,
            0 < n_embd <= row.len(),
            out@ =~= Seq::new(i as nat, |k: int| row@[k % n_embd as int]),
        decreases n - i,
    {
        out.push(row[i % n_embd]);
        i = i + 1;
    }
    out
}

} // verus!
