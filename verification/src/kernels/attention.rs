//! Which rows attention reads, in the order of their scores, and the movement of its data.
use vstd::prelude::*;

use crate::kernels::attention_laws::lane_place;
use crate::kernels::float::{float_gt, gt, NEG_INF};
use crate::kernels::reduce::{find_peak, peak_of, Peak};
use crate::kernels::utils::{f32_to_f16_bits, narrowed};
use crate::pow2::is_pow2;

verus! {

/// Minus 10 to the power of 20. A row whose mask is not above it is closed.
pub const MASK_FLOOR: u32 = 0xE0AD_78EC;

/// How many raw rows a kernel reads at most.
pub const MAX_RAW_ROWS: u32 = 256;

/// How many selected rows a kernel reads at most.
pub const MAX_SELECTED_ROWS: u32 = 512;

/// How many scores the decode kernel keeps at most.
pub const MAX_SCORES: u32 = 8192;

/// A row that attention scores.
#[derive(Clone, Copy, Debug, PartialEq, Eq, Structural)]
pub enum Row {
    /// A row of the raw cache.
    Raw(u32),
    /// A compressed row.
    Comp(u32),
    /// A compressed row that the mask closes: its score is minus infinity.
    Closed(u32),
}

/// A compressed row as the mask leaves it.
pub open spec fn comp_row(mask: Seq<u32>, use_mask: bool, at: int, c: int) -> Row {
    if use_mask && !gt(mask[at + c], MASK_FLOOR) {
        Row::Closed(c as u32)
    } else {
        Row::Comp(c as u32)
    }
}

/// The first `n` compressed rows as the mask leaves them.
pub open spec fn comp_rows(mask: Seq<u32>, use_mask: bool, at: int, n: nat) -> Seq<Row> {
    Seq::new(n, |c: int| comp_row(mask, use_mask, at, c))
}

/// The `n` raw rows from `first` on.
pub open spec fn raw_rows(first: int, n: nat) -> Seq<Row> {
    Seq::new(n, |r: int| Row::Raw((first + r) as u32))
}

/// How many compressed rows a token at position `qpos` sees: those whose tokens have all come.
pub open spec fn visible(qpos: int, ratio: int, n_comp: int) -> int {
    if (qpos + 1) / ratio > n_comp {
        n_comp
    } else {
        (qpos + 1) / ratio
    }
}

/// How many compressed rows a token sees.
fn visible_comp(qpos: u32, ratio: u32, n_comp: u32) -> (r: u32)
    requires
        qpos < u32::MAX,
        ratio > 0,
    ensures
        r == visible(qpos as int, ratio as int, n_comp as int),
        r <= n_comp,
{
    let v: u32 = (qpos + 1) / ratio;
    if v > n_comp {
        n_comp
    } else {
        v
    }
}

/// Adds the compressed rows.
fn push_comp_rows(rows: &mut Vec<Row>, mask: &[u32], use_mask: bool, at: usize, n: u32)
    requires
        use_mask ==> at + n <= mask.len(),
    ensures
        final(rows)@ == old(rows)@ + comp_rows(mask@, use_mask, at as int, n as nat),
{
    let ghost before = rows@;
    let mut c: u32 = 0;
    while c < n
        invariant
            c <= n,
            use_mask ==> at + n <= mask.len(),
            rows@ =~= before + comp_rows(mask@, use_mask, at as int, c as nat),
        decreases n - c,
    {
        if use_mask && !float_gt(mask[at + c as usize], MASK_FLOOR) {
            rows.push(Row::Closed(c));
        } else {
            rows.push(Row::Comp(c));
        }
        c = c + 1;
    }
}

/// Adds raw rows.
fn push_raw_rows(rows: &mut Vec<Row>, first: u32, n: u32)
    requires
        first + n <= u32::MAX,
    ensures
        final(rows)@ == old(rows)@ + raw_rows(first as int, n as nat),
{
    let ghost before = rows@;
    let mut r: u32 = 0;
    while r < n
        invariant
            r <= n,
            first + n <= u32::MAX,
            rows@ =~= before + raw_rows(first as int, r as nat),
        decreases n - r,
    {
        rows.push(Row::Raw(first + r));
        r = r + 1;
    }
}

/// How many raw rows a token of a prompt attends to: itself and those before it, at most a window.
pub open spec fn prompt_window(t: int, window: int) -> int {
    if t + 1 < window {
        t + 1
    } else {
        window
    }
}

/// The rows that token `t` of a prompt attends to where there are no compressed rows.
pub fn prefill_raw(t: u32, window: u32) -> (rows: Vec<Row>)
    requires
        t < u32::MAX,
        prompt_window(t as int, window as int) <= MAX_RAW_ROWS,
    ensures
        rows@ == raw_rows(
            t + 1 - prompt_window(t as int, window as int),
            prompt_window(t as int, window as int) as nat,
        ),
{
    let raw_count: u32 = if t + 1 < window {
        t + 1
    } else {
        window
    };
    let mut rows: Vec<Row> = Vec::new();
    push_raw_rows(&mut rows, t + 1 - raw_count, raw_count);
    assert(rows@ =~= raw_rows(t + 1 - raw_count, raw_count as nat));
    rows
}

/// The first raw row that a token of a prompt attends to. A window of 0 is no limit.
pub open spec fn prompt_start(t: int, window: int) -> int {
    if window != 0 && t + 1 > window {
        t + 1 - window
    } else {
        0
    }
}

/// The rows that token `t` of a prompt attends to: those of its window, and the compressed rows
/// that it sees.
pub open spec fn prompt_rows(
    t: int,
    mask: Seq<u32>,
    use_mask: bool,
    n_comp: int,
    window: int,
    ratio: int,
) -> Seq<Row> {
    raw_rows(prompt_start(t, window), (t + 1 - prompt_start(t, window)) as nat) + comp_rows(
        mask,
        use_mask,
        t * n_comp,
        visible(t, ratio, n_comp) as nat,
    )
}

/// The rows that token `t` of a prompt attends to.
pub fn prefill_mixed(
    t: u32,
    comp_mask: &[u32],
    use_comp_mask: bool,
    n_comp: u32,
    window: u32,
    ratio: u32,
) -> (rows: Vec<Row>)
    requires
        t < u32::MAX,
        ratio > 0,
        use_comp_mask ==> t * n_comp + visible(t as int, ratio as int, n_comp as int)
            <= comp_mask.len(),
    ensures
        rows@ == prompt_rows(
            t as int,
            comp_mask@,
            use_comp_mask,
            n_comp as int,
            window as int,
            ratio as int,
        ),
{
    let raw_start: u32 = if window != 0 && t + 1 > window {
        t + 1 - window
    } else {
        0
    };
    let mut rows: Vec<Row> = Vec::new();
    push_raw_rows(&mut rows, raw_start, t + 1 - raw_start);
    let n: u32 = visible_comp(t, ratio, n_comp);
    let at: usize = if use_comp_mask {
        assert(t * n_comp >= 0) by (nonlinear_arith);
        t as usize * n_comp as usize
    } else {
        0
    };
    push_comp_rows(&mut rows, comp_mask, use_comp_mask, at, n);
    assert(rows@ =~= prompt_rows(
        t as int,
        comp_mask@,
        use_comp_mask,
        n_comp as int,
        window as int,
        ratio as int,
    ));
    rows
}

/// The rows that token `t` of a prompt attends to in the kernel of eight heads, which knows no
/// mask.
pub fn static_mixed_heads8_online(t: u32, n_comp: u32, window: u32, ratio: u32) -> (rows: Vec<Row>)
    requires
        t < u32::MAX,
    ensures
        rows@ == raw_rows(
            prompt_start(t as int, window as int),
            (t + 1 - prompt_start(t as int, window as int)) as nat,
        ) + comp_rows(
            Seq::empty(),
            false,
            0,
            if n_comp != 0 && ratio != 0 {
                visible(t as int, ratio as int, n_comp as int) as nat
            } else {
                0
            },
        ),
{
    let raw_count: u32 = if window != 0 && t + 1 > window {
        window
    } else {
        t + 1
    };
    let mut rows: Vec<Row> = Vec::new();
    push_raw_rows(&mut rows, t + 1 - raw_count, raw_count);
    let n: u32 = if n_comp != 0 && ratio != 0 {
        visible_comp(t, ratio, n_comp)
    } else {
        0
    };
    let none: Vec<u32> = Vec::new();
    push_comp_rows(&mut rows, none.as_slice(), false, 0, n);
    assert(rows@ =~= raw_rows(t + 1 - raw_count, raw_count as nat) + comp_rows(
        Seq::empty(),
        false,
        0,
        n as nat,
    ));
    rows
}

/// Which of the `n_raw` stored positions from `first` on a token at position `qpos` attends to:
/// the index of the first, and how many.
pub open spec fn raw_range(qpos: int, first: int, n_raw: int, window: int) -> (int, int) {
    let wlo = if window != 0 && qpos + 1 > window {
        qpos + 1 - window
    } else {
        0
    };
    let lo = if wlo > first {
        wlo
    } else {
        first
    };
    let hi = if qpos < first + n_raw - 1 {
        qpos
    } else {
        first + n_raw - 1
    };
    if n_raw != 0 && hi >= lo {
        (lo - first, if hi - lo + 1 > MAX_RAW_ROWS {
            MAX_RAW_ROWS as int
        } else {
            hi - lo + 1
        })
    } else {
        (0, 0)
    }
}

/// Which of the stored positions a token attends to.
fn find_raw_range(qpos: u32, first: u32, n_raw: u32, window: u32) -> (r: (u32, u32))
    requires
        qpos < u32::MAX,
        first + n_raw <= u32::MAX,
    ensures
        r.0 == raw_range(qpos as int, first as int, n_raw as int, window as int).0,
        r.1 == raw_range(qpos as int, first as int, n_raw as int, window as int).1,
        r.0 + r.1 <= n_raw,
        r.1 <= MAX_RAW_ROWS,
{
    if n_raw == 0 {
        return (0, 0);
    }
    let raw_last: u32 = first + n_raw - 1;
    let mut lo: u32 = first;
    if window != 0 && qpos + 1 > window {
        let wlo: u32 = qpos + 1 - window;
        if wlo > lo {
            lo = wlo;
        }
    }
    let hi: u32 = if qpos < raw_last {
        qpos
    } else {
        raw_last
    };
    if hi >= lo {
        let n: u32 = hi - lo + 1;
        (lo - first, if n > MAX_RAW_ROWS {
            MAX_RAW_ROWS
        } else {
            n
        })
    } else {
        (0, 0)
    }
}

/// `n` rows of the raw cache, a ring of `raw_cap` rows, from `from` on.
pub open spec fn ring_rows(from: int, n: nat, raw_cap: int) -> Seq<Row> {
    Seq::new(n, |r: int| Row::Raw(((from + r) % raw_cap) as u32))
}

/// The rows of the ring.
fn list_ring_rows(from: u32, n: u32, raw_cap: u32) -> (rows: Vec<Row>)
    requires
        from + n <= u32::MAX,
        raw_cap > 0,
    ensures
        rows@ == ring_rows(from as int, n as nat, raw_cap as int),
{
    let mut rows: Vec<Row> = Vec::new();
    let mut r: u32 = 0;
    while r < n
        invariant
            r <= n,
            from + n <= u32::MAX,
            raw_cap > 0,
            rows@ =~= ring_rows(from as int, r as nat, raw_cap as int),
        decreases n - r,
    {
        rows.push(Row::Raw((from + r) % raw_cap));
        r = r + 1;
    }
    rows
}

/// Where the raw cache stands: the token's batch, and what the ring holds.
#[derive(Clone, Copy, Debug, PartialEq, Eq, Structural)]
pub struct RawCache {
    /// Tokens in the batch.
    pub n_tokens: u32,
    /// Position of the first of them.
    pub pos0: u32,
    /// Stored positions; the last is that of the batch's last token.
    pub n_raw: u32,
    /// Rows of the ring.
    pub raw_cap: u32,
    /// Row of the first stored position.
    pub raw_start: u32,
}

impl RawCache {
    /// The numbers fit: the stored positions exist, and the ring has rows.
    pub open spec fn wf(self) -> bool {
        &&& self.pos0 + self.n_tokens <= u32::MAX
        &&& self.n_raw <= self.pos0 + self.n_tokens
        &&& self.raw_cap > 0
        &&& self.raw_start + self.n_raw <= u32::MAX
    }

    /// The first stored position.
    pub open spec fn first(self) -> int {
        self.pos0 + self.n_tokens - self.n_raw
    }

    /// The stored positions that token `t` attends to.
    pub open spec fn range(self, t: int, window: int) -> (int, int) {
        raw_range(self.pos0 + t, self.first(), self.n_raw as int, window)
    }

    /// The rows of the ring that token `t` attends to.
    pub open spec fn rows(self, t: int, window: int) -> Seq<Row> {
        let range = self.range(t, window);
        ring_rows(self.raw_start + range.0, range.1 as nat, self.raw_cap as int)
    }

    /// The rows of the ring that token `t` attends to.
    fn list_rows(self, t: u32, window: u32) -> (rows: Vec<Row>)
        requires
            self.wf(),
            t < self.n_tokens,
        ensures
            rows@ == self.rows(t as int, window as int),
    {
        let first: u32 = self.pos0 + self.n_tokens - self.n_raw;
        let (fi, rc) = find_raw_range(self.pos0 + t, first, self.n_raw, window);
        list_ring_rows(self.raw_start + fi, rc, self.raw_cap)
    }
}

/// A single token that attends to all compressed rows.
pub open spec fn sees_all(cache: RawCache, ratio: int) -> bool {
    cache.n_tokens == 1 && ratio == 0
}

/// How many compressed rows a token sees while decoding.
pub open spec fn decode_visible(cache: RawCache, t: int, n_comp: int, ratio: int) -> int {
    if sees_all(cache, ratio) {
        n_comp
    } else if n_comp != 0 {
        visible(cache.pos0 + t, ratio, n_comp)
    } else {
        0
    }
}

/// The raw rows that a token attends to while decoding: a single token without a ratio takes the
/// stored rows from the first on.
pub open spec fn decode_raw_rows(cache: RawCache, t: int, window: int, ratio: int) -> Seq<Row> {
    if sees_all(cache, ratio) {
        ring_rows(
            cache.raw_start as int,
            (if cache.n_raw > MAX_RAW_ROWS {
                MAX_RAW_ROWS
            } else {
                cache.n_raw
            }) as nat,
            cache.raw_cap as int,
        )
    } else {
        cache.rows(t, window)
    }
}

/// How many scores a token has while decoding.
pub open spec fn decode_scores(
    cache: RawCache,
    t: int,
    n_comp: int,
    window: int,
    ratio: int,
) -> int {
    decode_raw_rows(cache, t, window, ratio).len() + decode_visible(cache, t, n_comp, ratio)
}

/// How many raw rows, and how many compressed rows, a token attends to while decoding. A kernel
/// has room for `MAX_SCORES` of them together.
pub fn count_decode_scores(cache: RawCache, t: u32, n_comp: u32, window: u32, ratio: u32) -> (r: (
    u32,
    u32,
))
    requires
        cache.wf(),
        t < cache.n_tokens,
        ratio > 0 || n_comp == 0 || cache.n_tokens == 1,
    ensures
        r.0 == decode_raw_rows(cache, t as int, window as int, ratio as int).len(),
        r.1 == decode_visible(cache, t as int, n_comp as int, ratio as int),
        r.0 + r.1 == decode_scores(
            cache,
            t as int,
            n_comp as int,
            window as int,
            ratio as int,
        ),
        r.0 <= MAX_RAW_ROWS,
        r.1 <= n_comp,
{
    if cache.n_tokens == 1 && ratio == 0 {
        let rc: u32 = if cache.n_raw > MAX_RAW_ROWS {
            MAX_RAW_ROWS
        } else {
            cache.n_raw
        };
        (rc, n_comp)
    } else {
        let first: u32 = cache.pos0 + cache.n_tokens - cache.n_raw;
        let (_, rc) = find_raw_range(cache.pos0 + t, first, cache.n_raw, window);
        let n: u32 = if n_comp != 0 {
            visible_comp(cache.pos0 + t, ratio, n_comp)
        } else {
            0
        };
        (rc, n)
    }
}

/// The rows that token `t` attends to while decoding.
pub fn decode_mixed(
    cache: RawCache,
    t: u32,
    comp_mask: &[u32],
    use_comp_mask: bool,
    n_comp: u32,
    window: u32,
    ratio: u32,
) -> (rows: Vec<Row>)
    requires
        cache.wf(),
        t < cache.n_tokens,
        ratio > 0 || n_comp == 0 || cache.n_tokens == 1,
        decode_scores(cache, t as int, n_comp as int, window as int, ratio as int) <= MAX_SCORES,
        use_comp_mask ==> t * n_comp + decode_visible(
            cache,
            t as int,
            n_comp as int,
            ratio as int,
        ) <= comp_mask.len(),
    ensures
        rows@ == decode_raw_rows(cache, t as int, window as int, ratio as int) + comp_rows(
            comp_mask@,
            use_comp_mask,
            t * n_comp,
            decode_visible(cache, t as int, n_comp as int, ratio as int) as nat,
        ),
{
    let (rc, n) = count_decode_scores(cache, t, n_comp, window, ratio);
    let mut rows: Vec<Row> = if cache.n_tokens == 1 && ratio == 0 {
        list_ring_rows(cache.raw_start, rc, cache.raw_cap)
    } else {
        cache.list_rows(t, window)
    };
    let at: usize = if use_comp_mask {
        assert(t * n_comp >= 0) by (nonlinear_arith);
        t as usize * n_comp as usize
    } else {
        0
    };
    push_comp_rows(&mut rows, comp_mask, use_comp_mask, at, n);
    assert(comp_rows(comp_mask@, use_comp_mask, at as int, n as nat) =~= comp_rows(
        comp_mask@,
        use_comp_mask,
        t * n_comp,
        n as nat,
    ));
    rows
}

/// The rows that token `t` attends to while decoding, in the kernel of eight heads.
pub fn decode_mixed_heads8_online(
    cache: RawCache,
    t: u32,
    n_comp: u32,
    window: u32,
    ratio: u32,
) -> (rows: Vec<Row>)
    requires
        cache.wf(),
        t < cache.n_tokens,
    ensures
        rows@ == cache.rows(t as int, window as int) + comp_rows(
            Seq::empty(),
            false,
            0,
            if ratio == 0 && cache.n_tokens != 1 {
                0
            } else {
                decode_visible(cache, t as int, n_comp as int, ratio as int) as nat
            },
        ),
{
    let n: u32 = if n_comp != 0 {
        if cache.n_tokens == 1 && ratio == 0 {
            n_comp
        } else if ratio != 0 {
            visible_comp(cache.pos0 + t, ratio, n_comp)
        } else {
            0
        }
    } else {
        0
    };
    let mut rows: Vec<Row> = cache.list_rows(t, window);
    let none: Vec<u32> = Vec::new();
    push_comp_rows(&mut rows, none.as_slice(), false, 0, n);
    rows
}

/// How many compressed rows may be selected from: without a ratio all of them.
pub open spec fn selectable(cache: RawCache, t: int, n_comp: int, ratio: int) -> int {
    if ratio != 0 {
        visible(cache.pos0 + t, ratio, n_comp)
    } else {
        n_comp
    }
}

/// The first `n` entries of a selection that name rows below `limit`, cut to the most a kernel
/// reads.
pub open spec fn selected_rows(topk: Seq<i32>, at: int, n: nat, limit: int) -> Seq<Row>
    decreases n,
{
    if n == 0 {
        Seq::empty()
    } else {
        let before = selected_rows(topk, at, (n - 1) as nat, limit);
        let c = topk[at + n - 1];
        if 0 <= c < limit && before.len() < MAX_SELECTED_ROWS {
            before.push(Row::Comp(c as u32))
        } else {
            before
        }
    }
}

/// The rows that token `t` attends to where compressed rows are selected: entries of the selection
/// that name no visible row are passed over.
pub fn indexed_mixed(
    cache: RawCache,
    t: u32,
    topk: &[i32],
    n_comp: u32,
    top_k: u32,
    window: u32,
    ratio: u32,
) -> (rows: Vec<Row>)
    requires
        cache.wf(),
        t < cache.n_tokens,
        (t + 1) * top_k <= topk.len(),
    ensures
        rows@ == cache.rows(t as int, window as int) + selected_rows(
            topk@,
            t * top_k,
            top_k as nat,
            selectable(cache, t as int, n_comp as int, ratio as int),
        ),
{
    let limit: u32 = if ratio != 0 {
        visible_comp(cache.pos0 + t, ratio, n_comp)
    } else {
        n_comp
    };
    let mut rows: Vec<Row> = cache.list_rows(t, window);
    let ghost raw = rows@;
    assert((t + 1) * top_k == t * top_k + top_k) by (nonlinear_arith);
    assert(t * top_k >= 0) by (nonlinear_arith);
    let at: usize = t as usize * top_k as usize;
    let mut count: u32 = 0;
    let mut i: u32 = 0;
    while i < top_k
        invariant
            i <= top_k,
            at == t * top_k,
            at + top_k <= topk.len(),
            count == selected_rows(topk@, at as int, i as nat, limit as int).len(),
            count <= MAX_SELECTED_ROWS,
            rows@ =~= raw + selected_rows(topk@, at as int, i as nat, limit as int),
        decreases top_k - i,
    {
        let c: i32 = topk[at + i as usize];
        if c >= 0 && (c as u32) < limit && count < MAX_SELECTED_ROWS {
            rows.push(Row::Comp(c as u32));
            count = count + 1;
        }
        i = i + 1;
    }
    rows
}

/// How many selected rows the kernel of eight heads reads.
pub open spec fn online_count(top_k: int, limit: int) -> int {
    let n = if top_k < limit {
        top_k
    } else {
        limit
    };
    if n > MAX_SELECTED_ROWS {
        MAX_SELECTED_ROWS as int
    } else {
        n
    }
}

/// The rows that token `t` attends to where compressed rows are selected, in the kernel of eight
/// heads: it reads the first entries of the selection as they are.
pub fn indexed_mixed_heads8_online(
    cache: RawCache,
    t: u32,
    topk: &[i32],
    n_comp: u32,
    top_k: u32,
    window: u32,
    ratio: u32,
) -> (rows: Vec<Row>)
    requires
        cache.wf(),
        t < cache.n_tokens,
        (t + 1) * top_k <= topk.len(),
        forall|i: int|
            0 <= i < online_count(
                top_k as int,
                selectable(cache, t as int, n_comp as int, ratio as int),
            ) ==> #[trigger] topk@[t * top_k + i] >= 0,
    ensures
        rows@ == cache.rows(t as int, window as int) + Seq::new(
            online_count(
                top_k as int,
                selectable(cache, t as int, n_comp as int, ratio as int),
            ) as nat,
            |i: int| Row::Comp(topk@[t * top_k + i] as u32),
        ),
{
    let limit: u32 = if ratio != 0 {
        visible_comp(cache.pos0 + t, ratio, n_comp)
    } else {
        n_comp
    };
    let n: u32 = if top_k < limit {
        top_k
    } else {
        limit
    };
    let count: u32 = if n > MAX_SELECTED_ROWS {
        MAX_SELECTED_ROWS
    } else {
        n
    };
    let mut rows: Vec<Row> = cache.list_rows(t, window);
    let ghost raw = rows@;
    assert((t + 1) * top_k == t * top_k + top_k) by (nonlinear_arith);
    assert(t * top_k >= 0) by (nonlinear_arith);
    let at: usize = t as usize * top_k as usize;
    let mut i: u32 = 0;
    while i < count
        invariant
            i <= count,
            count <= top_k,
            at == t * top_k,
            at + top_k <= topk.len(),
            forall|x: int| 0 <= x < count ==> #[trigger] topk@[t * top_k + x] >= 0,
            rows@ =~= raw + Seq::new(
                i as nat,
                |x: int| Row::Comp(topk@[t * top_k + x] as u32),
            ),
        decreases count - i,
    {
        assert(topk@[t * top_k + i] >= 0);
        let c: i32 = topk[at + i as usize];
        rows.push(Row::Comp(c as u32));
        i = i + 1;
    }
    rows
}

/// Element `d` of a row of 512 numbers in the cache that holds it.
pub open spec fn row_element(raw_kv: Seq<u32>, comp_kv: Seq<u32>, row: Row, d: int) -> u32 {
    match row {
        Row::Raw(r) => raw_kv[r * 512 + d],
        Row::Comp(c) => comp_kv[c * 512 + d],
        Row::Closed(c) => comp_kv[c * 512 + d],
    }
}

/// The caches hold the row.
pub open spec fn row_stored(raw_kv: Seq<u32>, comp_kv: Seq<u32>, row: Row) -> bool {
    match row {
        Row::Raw(r) => r * 512 + 512 <= raw_kv.len(),
        Row::Comp(c) => c * 512 + 512 <= comp_kv.len(),
        Row::Closed(c) => c * 512 + 512 <= comp_kv.len(),
    }
}

/// How many rows the stage that starts at `row0` has: four, or what is left.
pub open spec fn stage_len(row0: int, n: int) -> int {
    if n - row0 < 4 {
        n - row0
    } else {
        4
    }
}

/// Loads the rows of the stage that starts at `row0`, one after the other.
pub fn load_stage(raw_kv: &[u32], comp_kv: &[u32], rows: &[Row], row0: usize) -> (tile: Vec<u32>)
    requires
        row0 < rows.len(),
        forall|i: int|
            0 <= i < rows@.len() ==> row_stored(raw_kv@, comp_kv@, #[trigger] rows@[i]),
    ensures
        tile@ == Seq::new(
            (stage_len(row0 as int, rows@.len() as int) * 512) as nat,
            |i: int| row_element(raw_kv@, comp_kv@, rows@[row0 + i / 512], i % 512),
        ),
{
    let left: usize = rows.len() - row0;
    let nr: usize = if left < 4 {
        left
    } else {
        4
    };
    let mut tile: Vec<u32> = Vec::new();
    let mut off: usize = 0;
    while off < nr * 512
        invariant
            nr == stage_len(row0 as int, rows@.len() as int),
            nr <= 4,
            off <= nr * 512,
            row0 + nr <= rows.len(),
            forall|i: int|
                0 <= i < rows@.len() ==> row_stored(raw_kv@, comp_kv@, #[trigger] rows@[i]),
            tile@ =~= Seq::new(
                off as nat,
                |i: int| row_element(raw_kv@, comp_kv@, rows@[row0 + i / 512], i % 512),
            ),
        decreases nr * 512 - off,
    {
        let row: Row = rows[row0 + off / 512];
        let d: usize = off % 512;
        assert(row_stored(raw_kv@, comp_kv@, rows@[row0 + off / 512]));
        assert(raw_kv@.len() == raw_kv.len() && comp_kv@.len() == comp_kv.len());
        let v: u32 = match row {
            Row::Raw(r) => raw_kv[r as usize * 512 + d],
            Row::Comp(c) => comp_kv[c as usize * 512 + d],
            Row::Closed(c) => comp_kv[c as usize * 512 + d],
        };
        tile.push(v);
        off = off + 1;
    }
    tile
}

/// Element `j` of group `g` that a lane works on: each lane has four groups of four elements.
pub fn lane_element(lane: usize, g: usize, j: usize) -> (d: usize)
    requires
        lane < 32,
        g < 4,
        j < 4,
    ensures
        d == g * 128 + lane * 4 + j,
        d == lane_place(lane as int, g as int, j as int),
        d < 512,
{
    g * 128 + lane * 4 + j
}

/// Where the numbers of head `h` of token `t` start.
pub fn head_offset(t: usize, h: usize, n_head: usize, head_dim: usize) -> (r: usize)
    requires
        (t * n_head + h) * head_dim <= usize::MAX,
        t * n_head + h <= usize::MAX,
    ensures
        r == (t * n_head + h) * head_dim,
{
    assert(t * n_head >= 0) by (nonlinear_arith);
    (t * n_head + h) * head_dim
}

/// Token `t` of a prompt may attend to key `k`: one of its window, not after it.
pub open spec fn in_window(t: int, k: int, window: int) -> bool {
    k <= t && (window == 0 || t - k < window)
}

/// The scores of token `t` with those outside its window closed.
pub fn prefill_raw_softmax(scores: &[u32], t: usize, window: usize) -> (masked: Vec<u32>)
    ensures
        masked@ == Seq::new(
            scores@.len(),
            |k: int|
                if in_window(t as int, k, window as int) {
                    scores@[k]
                } else {
                    NEG_INF
                },
        ),
{
    let mut masked: Vec<u32> = Vec::new();
    let mut k: usize = 0;
    while k < scores.len()
        invariant
            k <= scores@.len(),
            masked@ =~= Seq::new(
                k as nat,
                |k: int|
                    if in_window(t as int, k, window as int) {
                        scores@[k]
                    } else {
                        NEG_INF
                    },
            ),
        decreases scores@.len() - k,
    {
        if k <= t && (window == 0 || t - k < window) {
            masked.push(scores[k]);
        } else {
            masked.push(NEG_INF);
        }
        k = k + 1;
    }
    masked
}

/// What becomes of a score.
#[derive(Clone, Copy, Debug, PartialEq, Eq, Structural)]
pub enum KeyUse {
    /// It stands as it is.
    Keep,
    /// The mask entry at this place is added.
    Add(usize),
    /// It becomes minus infinity.
    Drop,
}

/// What becomes of the score of key `k`: the first `n_tokens` keys are raw rows, those behind them
/// compressed rows.
pub open spec fn key_use(
    t: int,
    k: int,
    mask: Seq<u32>,
    use_mask: bool,
    n_tokens: int,
    n_comp: int,
    window: int,
    ratio: int,
) -> KeyUse {
    if k < n_tokens {
        if in_window(t, k, window) {
            KeyUse::Keep
        } else {
            KeyUse::Drop
        }
    } else {
        let c = k - n_tokens;
        if c < n_comp && c < (t + 1) / ratio {
            if !use_mask {
                KeyUse::Keep
            } else if gt(mask[t * n_comp + c], MASK_FLOOR) {
                KeyUse::Add((t * n_comp + c) as usize)
            } else {
                KeyUse::Drop
            }
        } else {
            KeyUse::Drop
        }
    }
}

/// What becomes of the scores of token `t`.
pub fn prefill_mixed_softmax(
    t: u32,
    comp_mask: &[u32],
    use_comp_mask: bool,
    n_tokens: u32,
    n_comp: u32,
    window: u32,
    ratio: u32,
    n_keys: u32,
) -> (uses: Vec<KeyUse>)
    requires
        t < n_tokens,
        ratio > 0,
        use_comp_mask ==> t * n_comp + visible(t as int, ratio as int, n_comp as int)
            <= comp_mask.len(),
    ensures
        uses@ == Seq::new(
            n_keys as nat,
            |k: int|
                key_use(
                    t as int,
                    k,
                    comp_mask@,
                    use_comp_mask,
                    n_tokens as int,
                    n_comp as int,
                    window as int,
                    ratio as int,
                ),
        ),
{
    let seen: u32 = (t + 1) / ratio;
    let mut uses: Vec<KeyUse> = Vec::new();
    let mut k: u32 = 0;
    while k < n_keys
        invariant
            k <= n_keys,
            t < n_tokens,
            ratio > 0,
            seen == (t + 1) as int / ratio as int,
            use_comp_mask ==> t * n_comp + visible(t as int, ratio as int, n_comp as int)
                <= comp_mask.len(),
            uses@ =~= Seq::new(
                k as nat,
                |k: int|
                    key_use(
                        t as int,
                        k,
                        comp_mask@,
                        use_comp_mask,
                        n_tokens as int,
                        n_comp as int,
                        window as int,
                        ratio as int,
                    ),
            ),
        decreases n_keys - k,
    {
        let u: KeyUse = if k < n_tokens {
            if k <= t && (window == 0 || t - k < window) {
                KeyUse::Keep
            } else {
                KeyUse::Drop
            }
        } else {
            let c: u32 = k - n_tokens;
            if c < n_comp && c < seen {
                if !use_comp_mask {
                    KeyUse::Keep
                } else {
                    assert(t * n_comp >= 0) by (nonlinear_arith);
                    let at: usize = t as usize * n_comp as usize + c as usize;
                    if float_gt(comp_mask[at], MASK_FLOOR) {
                        KeyUse::Add(at)
                    } else {
                        KeyUse::Drop
                    }
                }
            } else {
                KeyUse::Drop
            }
        };
        uses.push(u);
        k = k + 1;
    }
    uses
}

/// The highest of a sink and the first `n` scores. Scores that are not numbers do not count.
pub open spec fn highest(sink: u32, scores: Seq<u32>, n: nat) -> u32
    decreases n,
{
    if n == 0 {
        sink
    } else {
        let m = highest(sink, scores, (n - 1) as nat);
        if gt(scores[n - 1], m) {
            scores[n - 1]
        } else {
            m
        }
    }
}

/// Values as sizes, to be halved.
pub open spec fn as_peaks(v: Seq<u32>) -> Seq<Peak> {
    v.map_values(|x: u32| Peak { abs: x, val: x })
}

/// The highest value of a group of threads, found by halving: each of the first half takes the
/// value of its partner in the second half where that is higher.
pub fn attn_warp_max(v: &[u32]) -> (r: u32)
    requires
        v.len() == 32,
    ensures
        r == peak_of(as_peaks(v@), false).val,
{
    let mut peaks: Vec<Peak> = Vec::new();
    let mut i: usize = 0;
    while i < v.len()
        invariant
            i <= v@.len(),
            peaks@ =~= as_peaks(v@.take(i as int)),
        decreases v@.len() - i,
    {
        peaks.push(Peak { abs: v[i], val: v[i] });
        i = i + 1;
    }
    assert(v@.take(i as int) =~= v@);
    assert(is_pow2(32)) by {
        reveal_with_fuel(is_pow2, 6);
    }
    find_peak(&peaks, false).val
}

/// The score that all scores are taken relative to.
pub fn max_score(sink: u32, scores: &[u32]) -> (r: u32)
    ensures
        r == highest(sink, scores@, scores@.len()),
{
    let mut m: u32 = sink;
    let mut i: usize = 0;
    while i < scores.len()
        invariant
            i <= scores@.len(),
            m == highest(sink, scores@, i as nat),
        decreases scores@.len() - i,
    {
        if float_gt(scores[i], m) {
            m = scores[i];
        }
        i = i + 1;
    }
    m
}

/// Puts raw and compressed rows behind one another.
pub fn prefill_pack_mixed_kv(
    raw_kv: &[u32],
    comp_kv: &[u32],
    n_tokens: usize,
    n_comp: usize,
    head_dim: usize,
) -> (dst: Vec<u32>)
    requires
        n_tokens * head_dim <= raw_kv.len(),
        n_comp * head_dim <= comp_kv.len(),
    ensures
        dst@ == raw_kv@.take(n_tokens * head_dim) + comp_kv@.take(n_comp * head_dim),
{
    assert(n_tokens * head_dim >= 0 && n_comp * head_dim >= 0) by (nonlinear_arith);
    let n_raw: usize = n_tokens * head_dim;
    let n: usize = n_comp * head_dim;
    let mut dst: Vec<u32> = Vec::new();
    let mut i: usize = 0;
    while i < n_raw
        invariant
            i <= n_raw,
            n_raw <= raw_kv@.len(),
            dst@ =~= raw_kv@.take(i as int),
        decreases n_raw - i,
    {
        dst.push(raw_kv[i]);
        i = i + 1;
    }
    let mut j: usize = 0;
    while j < n
        invariant
            j <= n,
            n <= comp_kv@.len(),
            n_raw <= raw_kv@.len(),
            dst@ =~= raw_kv@.take(n_raw as int) + comp_kv@.take(j as int),
        decreases n - j,
    {
        dst.push(comp_kv[j]);
        j = j + 1;
    }
    dst
}

/// Where the number at place `i` of a block of `b` by `a` vectors of `dim` numbers comes from when
/// the source is a block of `a` by `b`.
pub open spec fn transposed_from(i: int, a: int, b: int, dim: int) -> int {
    (((i / dim) % a) * b + (i / dim) / a) * dim + i % dim
}

/// The place of number `d` of vector `(x, y)` in a block with rows of `n` vectors.
pub open spec fn vector_place(x: int, y: int, n: int, dim: int, d: int) -> int {
    (x * n + y) * dim + d
}

/// A source place lies in the source.
pub proof fn transposed_in_bounds(i: int, a: int, b: int, dim: int)
    requires
        a > 0,
        b > 0,
        dim > 0,
        0 <= i < a * b * dim,
    ensures
        0 <= transposed_from(i, a, b, dim) < a * b * dim,
        0 <= i / dim < a * b,
        0 <= (i / dim) / a < b,
        0 <= (i / dim) % a < a,
        0 <= i % dim < dim,
{
    let q = i / dim;
    let d = i % dim;
    vstd::arithmetic::div_mod::lemma_fundamental_div_mod(i, dim);
    assert(0 <= q < a * b) by (nonlinear_arith)
        requires
            i == dim * q + d,
            0 <= d < dim,
            0 <= i < a * b * dim,
            dim > 0,
    ;
    let x = q % a;
    let y = q / a;
    vstd::arithmetic::div_mod::lemma_fundamental_div_mod(q, a);
    assert(0 <= y < b) by (nonlinear_arith)
        requires
            q == a * y + x,
            0 <= x < a,
            0 <= q < a * b,
            a > 0,
    ;
    vector_in_bounds(x, y, a, b, dim, d);
}

/// The place of a number lies in its block.
pub proof fn vector_in_bounds(x: int, y: int, a: int, b: int, dim: int, d: int)
    requires
        0 <= x < a,
        0 <= y < b,
        0 <= d < dim,
    ensures
        0 <= vector_place(x, y, b, dim, d) < a * b * dim,
        0 <= x * b + y < a * b,
{
    assert(0 <= x * b + y < a * b) by (nonlinear_arith)
        requires
            0 <= x < a,
            0 <= y < b,
    ;
    let v = x * b + y;
    assert(0 <= v * dim + d < (a * b) * dim) by (nonlinear_arith)
        requires
            0 <= v < a * b,
            0 <= d < dim,
    ;
}

/// Turns a block of `a` by `b` vectors into one of `b` by `a`.
fn transpose(src: &[u32], a: usize, b: usize, dim: usize) -> (out: Vec<u32>)
    requires
        a * b * dim <= src.len(),
    ensures
        out@ == Seq::new(
            (a * b * dim) as nat,
            |i: int| src@[transposed_from(i, a as int, b as int, dim as int)],
        ),
{
    let mut out: Vec<u32> = Vec::new();
    if a == 0 || b == 0 || dim == 0 {
        assert(a * b * dim == 0) by (nonlinear_arith)
            requires
                a == 0 || b == 0 || dim == 0,
        ;
        return out;
    }
    assert(0 <= a * b <= a * b * dim) by (nonlinear_arith)
        requires
            a >= 0,
            b >= 0,
            dim >= 1,
    ;
    let n: usize = a * b * dim;
    let mut i: usize = 0;
    while i < n
        invariant
            a > 0,
            b > 0,
            dim > 0,
            n == a * b * dim,
            n <= src.len(),
            i <= n,
            out@ =~= Seq::new(
                i as nat,
                |i: int| src@[transposed_from(i, a as int, b as int, dim as int)],
            ),
        decreases n - i,
    {
        let q: usize = i / dim;
        let x: usize = q % a;
        let y: usize = q / a;
        proof {
            transposed_in_bounds(i as int, a as int, b as int, dim as int);
            let v = x * b + y;
            assert(0 <= x * b) by (nonlinear_arith);
            assert(0 <= v <= v * dim) by (nonlinear_arith)
                requires
                    v >= 0,
                    dim >= 1,
            ;
        }
        out.push(src[(x * b + y) * dim + i % dim]);
        i = i + 1;
    }
    out
}

/// Turns heads that lie together into tokens that lie together.
pub fn prefill_unpack_heads(tmp: &[u32], n_tokens: usize, n_head: usize, head_dim: usize) -> (heads:
    Vec<u32>)
    requires
        n_head * n_tokens * head_dim <= tmp.len(),
    ensures
        heads@ == Seq::new(
            (n_head * n_tokens * head_dim) as nat,
            |i: int|
                tmp@[transposed_from(i, n_head as int, n_tokens as int, head_dim as int)],
        ),
{
    transpose(tmp, n_head, n_tokens, head_dim)
}

/// Turns tokens that lie together into groups that lie together, with 16-bit numbers.
pub fn pack_group_heads_f16(heads: &[u32], n_tokens: usize, n_groups: usize, group_dim: usize) -> (
dst: Vec<u16>)
    requires
        n_tokens * n_groups * group_dim <= heads.len(),
    ensures
        dst@ == Seq::new(
            (n_tokens * n_groups * group_dim) as nat,
            |i: int|
                narrowed(
                    heads@[transposed_from(
                        i,
                        n_tokens as int,
                        n_groups as int,
                        group_dim as int,
                    )],
                ),
        ),
{
    let wide: Vec<u32> = transpose(heads, n_tokens, n_groups, group_dim);
    let mut dst: Vec<u16> = Vec::new();
    let mut i: usize = 0;
    while i < wide.len()
        invariant
            i <= wide@.len(),
            dst@ =~= wide@.take(i as int).map_values(|v: u32| narrowed(v)),
        decreases wide@.len() - i,
    {
        dst.push(f32_to_f16_bits(wide[i]));
        i = i + 1;
    }
    assert(wide@.take(i as int) =~= wide@);
    dst
}

/// Turns groups that lie together into tokens that lie together.
pub fn unpack_group_low(tmp: &[u32], n_tokens: usize, n_groups: usize, rank: usize) -> (low: Vec<
    u32,
>)
    requires
        n_groups * n_tokens * rank <= tmp.len(),
    ensures
        low@ == Seq::new(
            (n_groups * n_tokens * rank) as nat,
            |i: int|
                tmp@[transposed_from(i, n_groups as int, n_tokens as int, rank as int)],
        ),
{
    transpose(tmp, n_groups, n_tokens, rank)
}

} // verus!
