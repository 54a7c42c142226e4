//! The windows from which compressed rows are pooled, and the layout of the parallel residual
//! streams.
use vstd::prelude::*;

use crate::bytes::{le_nat, u16_le, u32_le};
use crate::kernels::utils::{f16_bits_to_f32, widened, written};

verus! {

/// Numbers in a row of a compressor's state. Windows of four tokens overlap: their rows have one
/// half for the window a token opens and one for the window it closes.
pub open spec fn width_of(head_dim: int, ratio: int) -> int {
    if ratio == 4 {
        2 * head_dim
    } else {
        head_dim
    }
}

/// Numbers in a row of a compressor's state.
pub fn state_width(head_dim: usize, ratio: usize) -> (r: usize)
    requires
        2 * head_dim <= usize::MAX,
    ensures
        r == width_of(head_dim as int, ratio as int),
{
    if ratio == 4 {
        2 * head_dim
    } else {
        head_dim
    }
}

/// The bits of number `idx` of a weight that starts at `offset`: 16-bit numbers for type 1, else
/// 32-bit ones.
pub fn model_scalar_hc(data: &[u8], offset: usize, type_: u32, idx: usize) -> (r: u32)
    requires
        offset + (idx + 1) * (if type_ == 1 {
            2int
        } else {
            4int
        }) <= data.len(),
    ensures
        r == if type_ == 1 {
            widened(le_nat(data@, offset + idx * 2, 2) as u16)
        } else {
            le_nat(data@, offset + idx * 4, 4) as u32
        },
{
    if type_ == 1 {
        f16_bits_to_f32(u16_le(data, offset + idx * 2))
    } else {
        u32_le(data, offset + idx * 4)
    }
}

/// Where a row comes from and goes to, and where the bias of its phase starts.
#[derive(Clone, Copy, Debug, PartialEq, Eq, Structural)]
pub struct Place {
    pub src: usize,
    pub dst: usize,
    pub ape: usize,
}

/// The row of the state that a token at position `pos` goes to. In windows of four it is one of
/// the upper four.
pub open spec fn state_row(pos: int, ratio: int) -> int {
    if ratio == 4 {
        4 + pos % 4
    } else {
        pos % ratio
    }
}

/// Places for rows below `rows` fit in memory.
pub open spec fn rows_fit(rows: int, width: int) -> bool {
    rows * width <= usize::MAX
}

proof fn row_fits(row: int, rows: int, width: int)
    requires
        0 <= row <= rows,
        0 <= width,
        rows_fit(rows, width),
    ensures
        0 <= row * width <= usize::MAX,
{
    assert(0 <= row * width <= rows * width) by (nonlinear_arith)
        requires
            0 <= row <= rows,
            0 <= width,
    ;
}

/// Where token `t` of a batch that starts at position `pos0` is stored.
pub fn compressor_store(head_dim: usize, ratio: usize, pos0: usize, t: usize) -> (p: Place)
    requires
        ratio > 0,
        2 * head_dim <= usize::MAX,
        pos0 + t <= usize::MAX,
        rows_fit(t as int, width_of(head_dim as int, ratio as int)),
        rows_fit(2 * ratio, width_of(head_dim as int, ratio as int)),
    ensures
        p.src == t * width_of(head_dim as int, ratio as int),
        p.dst == state_row(pos0 + t, ratio as int) * width_of(head_dim as int, ratio as int),
        p.ape == ((pos0 + t) % ratio as int) * width_of(head_dim as int, ratio as int),
{
    let width: usize = state_width(head_dim, ratio);
    let pos_mod: usize = (pos0 + t) % ratio;
    assert(pos_mod < ratio);
    let ghost dst_row = state_row(pos0 + t, ratio as int);
    proof {
        row_fits(dst_row, 2 * ratio, width as int);
        row_fits(pos_mod as int, 2 * ratio, width as int);
        row_fits(t as int, t as int, width as int);
    }
    let row: usize = if ratio == 4 {
        ratio + pos_mod
    } else {
        pos_mod
    };
    Place { src: t * width, dst: row * width, ape: pos_mod * width }
}

/// Where row `r` of a stretch of rows goes that is put into the state: from row `src0 + r` of the
/// batch to row `dst0 + r`.
pub fn compressor_set_rows(
    width: usize,
    ratio: usize,
    pos0: usize,
    src0: usize,
    dst0: usize,
    r: usize,
) -> (p: Place)
    requires
        ratio > 0,
        pos0 + src0 + r <= usize::MAX,
        dst0 + r <= usize::MAX,
        rows_fit(src0 + r, width as int),
        rows_fit(dst0 + r, width as int),
        rows_fit(ratio as int, width as int),
    ensures
        p.src == (src0 + r) * width,
        p.dst == (dst0 + r) * width,
        p.ape == ((pos0 + src0 + r) % ratio as int) * width,
{
    let phase: usize = (pos0 + (src0 + r)) % ratio;
    assert(phase < ratio);
    proof {
        row_fits(phase as int, ratio as int, width as int);
        row_fits(src0 + r, src0 + r, width as int);
        row_fits(dst0 + r, dst0 + r, width as int);
    }
    Place { src: (src0 + r) * width, dst: (dst0 + r) * width, ape: phase * width }
}

/// Moves the row of a place into the state.
pub fn store_row(kv: &[u32], state: &mut Vec<u32>, p: Place, width: usize)
    requires
        p.src + width <= kv.len(),
        p.dst + width <= old(state).len(),
    ensures
        final(state)@ == written(
            old(state)@,
            p.dst as int,
            kv@.subrange(p.src as int, p.src + width),
        ),
{
    let ghost before = state@;
    let mut j: usize = 0;
    while j < width
        invariant
            j <= width,
            p.src + width <= kv.len(),
            p.dst + width <= before.len(),
            before.len() <= usize::MAX,
            state@.len() == before.len(),
            state@ =~= written(before, p.dst as int, kv@.subrange(p.src as int, p.src + j)),
        decreases width - j,
    {
        state.set(p.dst + j, kv[p.src + j]);
        j = j + 1;
    }
}

/// Copies the upper four rows of a state of eight into the lower four.
pub fn compressor_shift_ratio4(state: &mut Vec<u32>, width: usize)
    requires
        8 * width <= old(state).len(),
    ensures
        final(state)@ == written(
            old(state)@,
            0,
            old(state)@.subrange(4 * width, 8 * width),
        ),
{
    let ghost before = state@;
    let half: usize = 4 * width;
    let mut i: usize = 0;
    while i < half
        invariant
            i <= half,
            half == 4 * width,
            2 * half <= before.len(),
            before.len() <= usize::MAX,
            state@.len() == before.len(),
            state@ =~= written(before, 0, before.subrange(half as int, half + i)),
        decreases half - i,
    {
        let v: u32 = state[half + i];
        state.set(i, v);
        i = i + 1;
    }
}

/// The places in the state that number `d` of a row is pooled from. In windows of four these are
/// the first halves of the lower rows and the second halves of the upper rows.
pub open spec fn pool_places(head_dim: int, ratio: int, d: int) -> Seq<int> {
    let width = width_of(head_dim, ratio);
    if ratio == 4 {
        Seq::new(
            8,
            |i: int|
                if i < 4 {
                    i * width + d
                } else {
                    i * width + head_dim + d
                },
        )
    } else {
        Seq::new(ratio as nat, |i: int| i * width + d)
    }
}

/// Rows of a compressor's state.
pub open spec fn rows_of(ratio: int) -> int {
    if ratio == 4 {
        8
    } else {
        ratio
    }
}

/// The places in the state that number `d` of a row is pooled from.
pub fn compressor_update_pool(head_dim: usize, ratio: usize, d: usize) -> (places: Vec<usize>)
    requires
        ratio > 0,
        d < head_dim,
        2 * head_dim <= usize::MAX,
        rows_fit(rows_of(ratio as int), width_of(head_dim as int, ratio as int)),
    ensures
        places@.map_values(|p: usize| p as int) == pool_places(
            head_dim as int,
            ratio as int,
            d as int,
        ),
        forall|i: int|
            0 <= i < places@.len() ==> #[trigger] places@[i] < rows_of(ratio as int) * width_of(
                head_dim as int,
                ratio as int,
            ),
{
    let width: usize = state_width(head_dim, ratio);
    let n: usize = if ratio == 4 {
        8
    } else {
        ratio
    };
    let ghost want = pool_places(head_dim as int, ratio as int, d as int);
    let mut places: Vec<usize> = Vec::new();
    let mut i: usize = 0;
    while i < n
        invariant
            i <= n,
            n == rows_of(ratio as int),
            n == want.len(),
            d < head_dim,
            width == width_of(head_dim as int, ratio as int),
            want == pool_places(head_dim as int, ratio as int, d as int),
            rows_fit(n as int, width as int),
            places@.map_values(|p: usize| p as int) =~= want.take(i as int),
            forall|x: int| 0 <= x < i ==> #[trigger] places@[x] < n * width,
            places@.len() == i,
        decreases n - i,
    {
        assert(i * width + width <= n * width) by (nonlinear_arith)
            requires
                i + 1 <= n,
        ;
        assert(i * width >= 0) by (nonlinear_arith);
        let p: usize = if ratio == 4 && i >= 4 {
            i * width + head_dim + d
        } else {
            i * width + d
        };
        assert(want[i as int] == p);
        places.push(p);
        i = i + 1;
    }
    assert(want.take(n as int) =~= want);
    places
}

/// What a number of a compressed row of a prompt is pooled from.
#[derive(Clone, Copy, Debug, PartialEq, Eq, Structural)]
pub enum Candidate {
    /// A place in the state that was kept.
    State(usize),
    /// A place in the batch, and the place of its bias.
    Token { src: usize, ape: usize },
}

/// The candidate of token `t` at place `j` of its row.
pub open spec fn token_candidate(t: int, j: int, width: int, ratio: int, pos0: int) -> Candidate {
    Candidate::Token {
        src: (t * width + j) as usize,
        ape: (((pos0 + t) % ratio) * width + j) as usize,
    }
}

/// What number `d` of compressed row `c` of a prompt is pooled from: its window, and for windows of
/// four the window before it, of which the first may have been kept in the state.
pub open spec fn prompt_candidates(
    head_dim: int,
    ratio: int,
    pos0: int,
    c: int,
    replay: bool,
    d: int,
) -> Seq<Candidate> {
    let width = width_of(head_dim, ratio);
    if ratio == 4 {
        let earlier = if replay && c == 0 {
            Seq::new(4, |r: int| Candidate::State((r * width + d) as usize))
        } else if c > 0 {
            Seq::new(4, |r: int| token_candidate((c - 1) * 4 + r, d, width, 4, pos0))
        } else {
            Seq::empty()
        };
        earlier + Seq::new(4, |r: int| token_candidate(c * 4 + r, head_dim + d, width, 4, pos0))
    } else {
        Seq::new(
            ratio as nat,
            |r: int| token_candidate(c * ratio + r, d, width, ratio, pos0),
        )
    }
}

/// Adds the candidates of `n` tokens from `t0` on.
fn push_tokens(
    out: &mut Vec<Candidate>,
    t0: usize,
    n: usize,
    j: usize,
    width: usize,
    ratio: usize,
    pos0: usize,
)
    requires
        ratio > 0,
        j < width,
        pos0 + t0 + n <= usize::MAX,
        rows_fit(t0 + n, width as int),
        rows_fit(ratio as int, width as int),
    ensures
        final(out)@ == old(out)@ + Seq::new(
            n as nat,
            |r: int|
                token_candidate(t0 + r, j as int, width as int, ratio as int, pos0 as int),
        ),
{
    let ghost before = out@;
    let mut r: usize = 0;
    while r < n
        invariant
            r <= n,
            ratio > 0,
            j < width,
            pos0 + t0 + n <= usize::MAX,
            rows_fit(t0 + n, width as int),
            rows_fit(ratio as int, width as int),
            out@ =~= before + Seq::new(
                r as nat,
                |r: int|
                    token_candidate(t0 + r, j as int, width as int, ratio as int, pos0 as int),
            ),
        decreases n - r,
    {
        let t: usize = t0 + r;
        let phase: usize = (pos0 + t) % ratio;
        proof {
            assert(phase < ratio);
            row_fits(t + 1, t0 + n, width as int);
            row_fits(phase + 1, ratio as int, width as int);
            assert((t + 1) * width == t * width + width) by (nonlinear_arith);
            assert((phase + 1) * width == phase * width + width) by (nonlinear_arith);
            assert(t * width >= 0 && phase * width >= 0) by (nonlinear_arith);
        }
        out.push(Candidate::Token { src: t * width + j, ape: phase * width + j });
        r = r + 1;
    }
}

/// What number `d` of compressed row `c` of a prompt is pooled from.
pub fn compressor_prefill_pool(
    head_dim: usize,
    ratio: usize,
    pos0: usize,
    c: usize,
    replay: bool,
    d: usize,
) -> (candidates: Vec<Candidate>)
    requires
        ratio > 0,
        d < head_dim,
        2 * head_dim <= usize::MAX,
        c < usize::MAX,
        pos0 + (c + 1) * ratio <= usize::MAX,
        rows_fit((c + 1) * ratio, width_of(head_dim as int, ratio as int)),
    ensures
        candidates@ == prompt_candidates(
            head_dim as int,
            ratio as int,
            pos0 as int,
            c as int,
            replay,
            d as int,
        ),
{
    let width: usize = state_width(head_dim, ratio);
    assert((c + 1) * ratio == c * ratio + ratio) by (nonlinear_arith);
    assert(c * ratio >= 0) by (nonlinear_arith);
    proof {
        row_fits(ratio as int, (c + 1) * ratio, width as int);
    }
    let mut out: Vec<Candidate> = Vec::new();
    if ratio == 4 {
        if replay && c == 0 {
            let mut r: usize = 0;
            while r < 4
                invariant
                    r <= 4,
                    d < width,
                    rows_fit(4, width as int),
                    out@ =~= Seq::new(
                        r as nat,
                        |r: int| Candidate::State((r * width + d) as usize),
                    ),
                decreases 4 - r,
            {
                proof {
                    row_fits(r + 1, 4, width as int);
                    assert((r + 1) * width == r * width + width) by (nonlinear_arith);
                    assert(r * width >= 0) by (nonlinear_arith);
                }
                out.push(Candidate::State(r * width + d));
                r = r + 1;
            }
        } else if c > 0 {
            proof {
                row_fits((c - 1) * 4 + 4, (c + 1) * ratio, width as int);
            }
            push_tokens(&mut out, (c - 1) * 4, 4, d, width, 4, pos0);
        }
        push_tokens(&mut out, c * 4, 4, head_dim + d, width, 4, pos0);
    } else {
        push_tokens(&mut out, c * ratio, ratio, d, width, ratio, pos0);
    }
    assert(out@ =~= prompt_candidates(
        head_dim as int,
        ratio as int,
        pos0 as int,
        c as int,
        replay,
        d as int,
    ));
    out
}

/// A state holds the rows of tokens: those of window `c - 1` below and those of window `c` above.
pub open spec fn holds_windows(
    state: Seq<u32>,
    kv: Seq<u32>,
    width: int,
    c: int,
) -> bool {
    forall|r: int, j: int|
        0 <= r < 8 && 0 <= j < width ==> #[trigger] place_at(state, r, width, j) == place_at(
            kv,
            (c - 1) * 4 + r,
            width,
            j,
        )
}

/// Number `j` of row `r`.
pub open spec fn place_at(s: Seq<u32>, r: int, width: int, j: int) -> u32 {
    s[r * width + j]
}

/// In windows of four, pooling a state that holds two windows reads the same numbers as pooling
/// the prompt.
pub proof fn pooling_agrees(state: Seq<u32>, kv: Seq<u32>, head_dim: int, pos0: int, c: int, d: int)
    requires
        0 <= d < head_dim,
        c > 0,
        rows_fit((c + 1) * 4, 2 * head_dim),
        holds_windows(state, kv, 2 * head_dim, c),
    ensures
        pool_places(head_dim, 4, d).len() == prompt_candidates(
            head_dim,
            4,
            pos0,
            c,
            false,
            d,
        ).len(),
        forall|i: int|
            0 <= i < 8 ==> (#[trigger] prompt_candidates(head_dim, 4, pos0, c, false, d)[i] matches
                Candidate::Token { src, ape } && kv[src as int] == state[pool_places(
                head_dim,
                4,
                d,
            )[i]]),
{
    let width = 2 * head_dim;
    let cands = prompt_candidates(head_dim, 4, pos0, c, false, d);
    assert forall|i: int| 0 <= i < 8 implies (#[trigger] cands[i] matches Candidate::Token {
        src,
        ape,
    } && kv[src as int] == state[pool_places(head_dim, 4, d)[i]]) by {
        let t = (c - 1) * 4 + i;
        let j = if i < 4 {
            d
        } else {
            head_dim + d
        };
        row_fits(t + 1, (c + 1) * 4, width);
        assert((t + 1) * width == t * width + width) by (nonlinear_arith);
        assert(t * width >= 0) by (nonlinear_arith)
            requires
                t >= 0,
                width >= 0,
        ;
        assert(cands[i] == token_candidate(t, j, width, 4, pos0));
        assert(place_at(state, i, width, j) == place_at(kv, t, width, j));
        assert(pool_places(head_dim, 4, d)[i] == i * width + j);
    }
}

/// The shift keeps the upper rows and makes the lower rows the same.
pub proof fn shifting_keeps_the_last_window(state: Seq<u32>, width: int, r: int, j: int)
    requires
        width >= 0,
        8 * width <= state.len(),
        0 <= r < 4,
        0 <= j < width,
    ensures
        ({
            let shifted = written(state, 0, state.subrange(4 * width, 8 * width));
            &&& place_at(shifted, r, width, j) == place_at(state, 4 + r, width, j)
            &&& place_at(shifted, 4 + r, width, j) == place_at(state, 4 + r, width, j)
        }),
{
    assert(0 <= r * width && r * width + width <= 4 * width) by (nonlinear_arith)
        requires
            0 <= r,
            r + 1 <= 4,
            width >= 0,
    ;
    assert((4 + r) * width == 4 * width + r * width) by (nonlinear_arith);
}

/// Where number `d` of stream `h` of token `t` stands.
pub fn stream_offset(t: usize, h: usize, d: usize, n_hc: usize, n_embd: usize) -> (r: usize)
    requires
        h < n_hc,
        d < n_embd,
        (t + 1) * n_hc * n_embd <= usize::MAX,
    ensures
        r == (t * n_hc + h) * n_embd + d,
        r < (t + 1) * n_hc * n_embd,
{
    proof {
        let v = t * n_hc + h;
        assert((t + 1) * n_hc == t * n_hc + n_hc) by (nonlinear_arith);
        assert(0 <= t * n_hc) by (nonlinear_arith);
        assert(v * n_embd + n_embd <= ((t + 1) * n_hc) * n_embd) by (nonlinear_arith)
            requires
                v + 1 <= (t + 1) * n_hc,
        ;
        assert(v <= v * n_embd) by (nonlinear_arith)
            requires
                v >= 0,
                n_embd >= 1,
        ;
    }
    (t * n_hc + h) * n_embd + d
}

/// Where the weight of stream `dst` for the output of a block stands in the split of token `t`:
/// behind the weights of its input.
pub fn post_offset(t: usize, dst: usize, n_hc: usize, mix_hc: usize) -> (r: usize)
    requires
        dst < n_hc,
        2 * n_hc <= mix_hc,
        (t + 1) * mix_hc <= usize::MAX,
    ensures
        r == t * mix_hc + n_hc + dst,
        r < (t + 1) * mix_hc,
{
    assert((t + 1) * mix_hc == t * mix_hc + mix_hc) by (nonlinear_arith);
    assert(0 <= t * mix_hc) by (nonlinear_arith);
    t * mix_hc + n_hc + dst
}

/// Where the weight with which stream `src` goes into stream `dst` stands in the split of token
/// `t`: behind the weights of input and output.
pub fn comb_offset(t: usize, dst: usize, src: usize, n_hc: usize, mix_hc: usize) -> (r: usize)
    requires
        dst < n_hc,
        src < n_hc,
        2 * n_hc + n_hc * n_hc <= mix_hc,
        (t + 1) * mix_hc <= usize::MAX,
    ensures
        r == t * mix_hc + 2 * n_hc + dst + src * n_hc,
        r < (t + 1) * mix_hc,
{
    assert((t + 1) * mix_hc == t * mix_hc + mix_hc) by (nonlinear_arith);
    assert(0 <= t * mix_hc) by (nonlinear_arith);
    assert(0 <= src * n_hc && src * n_hc + n_hc <= n_hc * n_hc) by (nonlinear_arith)
        requires
            src + 1 <= n_hc,
    ;
    t * mix_hc + 2 * n_hc + dst + src * n_hc
}

} // verus!
