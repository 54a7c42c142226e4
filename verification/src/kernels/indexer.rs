//! Choice of the compressed rows to attend to.
use vstd::prelude::*;

use crate::kernels::bitonic::{bitonic_sort, network, Ranked};
use crate::kernels::float::{eq, float_eq, float_gt, gt, is_nan, key, NEG_INF};
use crate::kernels::utils::written;
use crate::pow2::is_pow2;

verus! {

/// A score with the row that has it.
#[derive(Clone, Copy, Debug)]
pub struct Scored {
    pub score: u32,
    pub row: u32,
}

/// One score is better than another: higher, or equal and of an earlier row.
pub open spec fn better(av: u32, ai: u32, bv: u32, bi: u32) -> bool {
    gt(av, bv) || (eq(av, bv) && ai < bi)
}

/// Whether the first score is better: the higher wins, and of equal ones that of the lower row.
pub fn topk_score_better(av: u32, ai: u32, bv: u32, bi: u32) -> (r: bool)
    ensures
        r == better(av, ai, bv, bi),
{
    float_gt(av, bv) || (float_eq(av, bv) && ai < bi)
}

/// The place of a score in the order from best to worst.
pub open spec fn score_rank(v: u32, i: u32) -> int {
    i - key(v) * 0x1_0000_0000
}

impl Ranked for Scored {
    open spec fn rank(self) -> int {
        score_rank(self.score, self.row)
    }

    open spec fn ranked(self) -> bool {
        !is_nan(self.score)
    }

    open spec fn before(self, other: Self) -> bool {
        better(self.score, self.row, other.score, other.row)
    }

    proof fn before_is_by_rank(self, other: Self) {
    }

    fn goes_before(self, other: Self) -> (r: bool) {
        topk_score_better(self.score, self.row, other.score, other.row)
    }
}

/// A number to be sorted upwards.
#[derive(Clone, Copy, Debug)]
pub struct Rising(pub i32);

impl Ranked for Rising {
    open spec fn rank(self) -> int {
        self.0 as int
    }

    open spec fn ranked(self) -> bool {
        true
    }

    open spec fn before(self, other: Self) -> bool {
        self.0 < other.0
    }

    proof fn before_is_by_rank(self, other: Self) {
    }

    fn goes_before(self, other: Self) -> (r: bool) {
        self.0 < other.0
    }
}

/// Compressed rows that the token at `pos` may see: the whole windows up to it.
pub open spec fn visible(pos: int, ratio: int) -> int {
    (pos + 1) / ratio
}

/// Whether the score of row `c` for the token at `pos` is masked.
pub fn is_masked(c: u32, pos: u32, ratio: u32, causal: bool) -> (r: bool)
    requires
        ratio > 0,
        pos < u32::MAX,
    ensures
        r == (causal && c >= visible(pos as int, ratio as int)),
{
    causal && c >= (pos + 1) / ratio
}

/// The rows of a list of scores.
pub open spec fn rows_of(items: Seq<Scored>) -> Seq<u32> {
    items.map_values(|s: Scored| s.row)
}

/// The scores `from .. from + n` of a list, with rows counted from `first` on, filled up to
/// `size` with scores that none is below and that have the row `pad`.
pub open spec fn padded(
    scores: Seq<u32>,
    from: int,
    first: int,
    n: int,
    size: int,
    pad: u32,
) -> Seq<Scored> {
    Seq::new(
        size as nat,
        |i: int|
            if i < n {
                Scored { score: scores[from + i], row: (first + i) as u32 }
            } else {
                Scored { score: NEG_INF, row: pad }
            },
    )
}

/// Candidate rows `from .. from + n` with their scores, filled up to `size`. A row that does not
/// exist has the lowest score.
pub open spec fn candidates_of(
    scores: Seq<u32>,
    base: int,
    n_comp: int,
    candidates: Seq<u32>,
    from: int,
    n: int,
    size: int,
) -> Seq<Scored> {
    Seq::new(
        size as nat,
        |i: int|
            if i < n {
                Scored {
                    score: if candidates[from + i] < n_comp {
                        scores[base + candidates[from + i]]
                    } else {
                        NEG_INF
                    },
                    row: candidates[from + i],
                }
            } else {
                Scored { score: NEG_INF, row: u32::MAX }
            },
    )
}

/// The rows of the best `top_k` items, best first.
pub open spec fn best_rows(items: Seq<Scored>, top_k: int) -> Seq<u32> {
    rows_of(network(items)).take(top_k)
}

/// Sorts the items and writes the rows of the best ones from `at` on.
fn write_best(items: Vec<Scored>, top_k: usize, out: &mut Vec<u32>, at: usize)
    requires
        is_pow2(items@.len() as int),
        items@.len() <= 0x4000_0000,
        top_k <= items@.len(),
        at + top_k <= old(out).len(),
    ensures
        final(out)@ == written(old(out)@, at as int, best_rows(items@, top_k as int)),
{
    let mut sorted: Vec<Scored> = items;
    proof {
        crate::kernels::bitonic_laws::network_permutes(sorted@);
    }
    bitonic_sort(&mut sorted);
    let ghost best = best_rows(items@, top_k as int);
    let ghost start = out@;
    let mut i: usize = 0;
    while i < top_k
        invariant
            i <= top_k,
            sorted@ == network(items@),
            top_k <= sorted@.len(),
            at + top_k <= out@.len(),
            out@.len() == start.len(),
            at + top_k <= usize::MAX,
            best == best_rows(items@, top_k as int),
            forall|x: int|
                0 <= x < out@.len() ==> #[trigger] out@[x] == if at <= x < at + i {
                    best[x - at]
                } else {
                    start[x]
                },
        decreases top_k - i,
    {
        out.set(at + i, sorted[i].row);
        i = i + 1;
    }
    assert(out@ =~= written(start, at as int, best));
}

/// Selection of the best `top_k` of the `n_comp` scores of token `t`, by sorting all of them.
/// `n_sort` is a power of two that is at least `n_comp`.
pub fn indexer_topk_bitonic(
    t: usize,
    scores: &[u32],
    selected: &mut Vec<u32>,
    n_comp: usize,
    top_k: usize,
    n_sort: usize,
)
    requires
        is_pow2(n_sort as int),
        n_sort <= 0x4000_0000,
        n_comp <= n_sort,
        top_k <= n_sort,
        (t + 1) * n_comp <= scores.len(),
        (t + 1) * top_k <= old(selected).len(),
    ensures
        final(selected)@ == written(
            old(selected)@,
            t * top_k,
            best_rows(
                padded(scores@, t * n_comp, 0, n_comp as int, n_sort as int, u32::MAX),
                top_k as int,
            ),
        ),
{
    topk_by_sorting(t, scores, selected, n_comp, top_k, n_sort, u32::MAX)
}

/// The same for at most 65535 scores; a place that no row takes holds 65535.
pub fn indexer_topk_bitonic_u16(
    t: usize,
    scores: &[u32],
    selected: &mut Vec<u32>,
    n_comp: usize,
    top_k: usize,
    n_sort: usize,
)
    requires
        is_pow2(n_sort as int),
        n_sort <= 0x4000_0000,
        n_comp <= 65535,
        n_comp <= n_sort,
        top_k <= n_sort,
        (t + 1) * n_comp <= scores.len(),
        (t + 1) * top_k <= old(selected).len(),
    ensures
        final(selected)@ == written(
            old(selected)@,
            t * top_k,
            best_rows(
                padded(scores@, t * n_comp, 0, n_comp as int, n_sort as int, 65535),
                top_k as int,
            ),
        ),
{
    topk_by_sorting(t, scores, selected, n_comp, top_k, n_sort, 65535)
}

fn topk_by_sorting(
    t: usize,
    scores: &[u32],
    selected: &mut Vec<u32>,
    n_comp: usize,
    top_k: usize,
    n_sort: usize,
    pad: u32,
)
    requires
        is_pow2(n_sort as int),
        n_sort <= 0x4000_0000,
        n_comp <= n_sort,
        top_k <= n_sort,
        (t + 1) * n_comp <= scores.len(),
        (t + 1) * top_k <= old(selected).len(),
    ensures
        final(selected)@ == written(
            old(selected)@,
            t * top_k,
            best_rows(
                padded(scores@, t * n_comp, 0, n_comp as int, n_sort as int, pad),
                top_k as int,
            ),
        ),
{
    assert((t + 1) * n_comp == t * n_comp + n_comp) by (nonlinear_arith);
    assert((t + 1) * top_k == t * top_k + top_k) by (nonlinear_arith);
    assert(t * n_comp >= 0 && t * top_k >= 0) by (nonlinear_arith);
    let base: usize = t * n_comp;
    let items: Vec<Scored> = load_scores(scores, base, 0, n_comp, n_sort, pad);
    assert(items@ =~= padded(scores@, t * n_comp, 0, n_comp as int, n_sort as int, pad));
    write_best(items, top_k, selected, t * top_k);
}

/// Loads scores with their rows, and pads.
fn load_scores(
    scores: &[u32],
    from: usize,
    first: usize,
    n: usize,
    size: usize,
    pad: u32,
) -> (items: Vec<Scored>)
    requires
        n <= size,
        from + n <= scores.len(),
        first + n <= usize::MAX,
    ensures
        items@ == padded(scores@, from as int, first as int, n as int, size as int, pad),
{
    let mut items: Vec<Scored> = Vec::new();
    let mut i: usize = 0;
    while i < size
        invariant
            i <= size,
            n <= size,
            from + n <= scores.len(),
            first + n <= usize::MAX,
            items@ =~= padded(
                scores@,
                from as int,
                first as int,
                n as int,
                size as int,
                pad,
            ).take(i as int),
        decreases size - i,
    {
        if i < n {
            items.push(Scored { score: scores[from + i], row: (first + i) as u32 });
        } else {
            items.push(Scored { score: NEG_INF, row: pad });
        }
        i = i + 1;
    }
    items
}

/// Selection of the best `top_k` within chunk `chunk` of `n_sort` scores of token `t`. A chunk
/// that starts past the last score is left alone.
pub fn indexer_topk_chunk_bitonic(
    t: usize,
    chunk: usize,
    scores: &[u32],
    candidates: &mut Vec<u32>,
    n_comp: usize,
    top_k: usize,
    candidate_stride: usize,
    n_sort: usize,
)
    requires
        is_pow2(n_sort as int),
        n_sort <= 0x4000_0000,
        top_k <= n_sort,
        (t + 1) * n_comp <= scores.len(),
        n_comp <= u32::MAX,
        chunk * n_sort <= usize::MAX,
        t * candidate_stride + (chunk + 1) * top_k <= old(candidates).len(),
    ensures
        final(candidates)@ == if chunk * n_sort >= n_comp {
            old(candidates)@
        } else {
            written(
                old(candidates)@,
                t * candidate_stride + chunk * top_k,
                best_rows(
                    padded(
                        scores@,
                        t * n_comp + chunk * n_sort,
                        chunk * n_sort,
                        chunk_len(n_comp as int, chunk * n_sort, n_sort as int),
                        n_sort as int,
                        u32::MAX,
                    ),
                    top_k as int,
                ),
            )
        },
{
    assert((t + 1) * n_comp == t * n_comp + n_comp) by (nonlinear_arith);
    assert((chunk + 1) * top_k == chunk * top_k + top_k) by (nonlinear_arith);
    assert(t * n_comp >= 0 && t * candidate_stride >= 0 && chunk * top_k >= 0) by (nonlinear_arith);
    let start: usize = chunk * n_sort;
    if start >= n_comp {
        return ;
    }
    let rem: usize = n_comp - start;
    let n: usize = if rem < n_sort {
        rem
    } else {
        n_sort
    };
    let base: usize = t * n_comp;
    let items: Vec<Scored> = load_scores(scores, base + start, start, n, n_sort, u32::MAX);
    write_best(items, top_k, candidates, t * candidate_stride + chunk * top_k);
}

/// Scores in a chunk of at most `size` that starts at `start`.
pub open spec fn chunk_len(n_comp: int, start: int, size: int) -> int {
    if n_comp - start < size {
        n_comp - start
    } else {
        size
    }
}

/// Loads candidate rows with their scores, and pads.
fn load_candidates(
    scores: &[u32],
    base: usize,
    n_comp: usize,
    candidates: &[u32],
    from: usize,
    n: usize,
    size: usize,
) -> (items: Vec<Scored>)
    requires
        base + n_comp <= scores.len(),
        n_comp <= u32::MAX,
        n <= size,
        from + n <= candidates.len(),
    ensures
        items@ == candidates_of(
            scores@,
            base as int,
            n_comp as int,
            candidates@,
            from as int,
            n as int,
            size as int,
        ),
{
    let mut items: Vec<Scored> = Vec::new();
    let mut i: usize = 0;
    while i < size
        invariant
            i <= size,
            base + n_comp <= scores.len(),
            n_comp <= u32::MAX,
            n <= size,
            from + n <= candidates.len(),
            items@ =~= candidates_of(
                scores@,
                base as int,
                n_comp as int,
                candidates@,
                from as int,
                n as int,
                size as int,
            ).take(i as int),
        decreases size - i,
    {
        if i < n {
            let row: u32 = candidates[from + i];
            let score: u32 = if (row as usize) < n_comp {
                scores[base + row as usize]
            } else {
                NEG_INF
            };
            items.push(Scored { score, row });
        } else {
            items.push(Scored { score: NEG_INF, row: u32::MAX });
        }
        i = i + 1;
    }
    items
}

/// Selection of the best `top_k` among `candidate_count` candidate rows of token `t`.
pub fn indexer_topk_merge_bitonic(
    t: usize,
    scores: &[u32],
    candidates: &[u32],
    selected: &mut Vec<u32>,
    n_comp: usize,
    top_k: usize,
    candidate_count: usize,
    candidate_stride: usize,
    n_sort: usize,
)
    requires
        is_pow2(n_sort as int),
        n_sort <= 0x4000_0000,
        top_k <= n_sort,
        candidate_count <= n_sort,
        n_comp <= u32::MAX,
        (t + 1) * n_comp <= scores.len(),
        t * candidate_stride + candidate_count <= candidates.len(),
        (t + 1) * top_k <= old(selected).len(),
    ensures
        final(selected)@ == written(
            old(selected)@,
            t * top_k,
            best_rows(
                candidates_of(
                    scores@,
                    t * n_comp,
                    n_comp as int,
                    candidates@,
                    t * candidate_stride,
                    candidate_count as int,
                    n_sort as int,
                ),
                top_k as int,
            ),
        ),
{
    assert((t + 1) * n_comp == t * n_comp + n_comp) by (nonlinear_arith);
    assert((t + 1) * top_k == t * top_k + top_k) by (nonlinear_arith);
    assert(t * n_comp >= 0 && t * candidate_stride >= 0 && t * top_k >= 0) by (nonlinear_arith);
    let items: Vec<Scored> = load_candidates(
        scores,
        t * n_comp,
        n_comp,
        candidates,
        t * candidate_stride,
        candidate_count,
        n_sort,
    );
    write_best(items, top_k, selected, t * top_k);
}

/// Sets of candidates in a group of at most `merge_group` that starts at set `first`.
pub open spec fn group_len(n_sets: int, first: int, merge_group: int) -> int {
    if n_sets - first < merge_group {
        n_sets - first
    } else {
        merge_group
    }
}

/// Selection of the best `top_k` among the candidates of group `group`: up to `merge_group` sets
/// of `top_k` each. A group past the last set is left alone.
pub fn indexer_topk_tree_merge_bitonic(
    t: usize,
    group: usize,
    scores: &[u32],
    candidates: &[u32],
    out: &mut Vec<u32>,
    n_comp: usize,
    top_k: usize,
    n_sets: usize,
    merge_group: usize,
    candidate_stride: usize,
    out_stride: usize,
    n_sort: usize,
)
    requires
        is_pow2(n_sort as int),
        n_sort <= 0x4000_0000,
        top_k <= n_sort,
        merge_group * top_k <= n_sort,
        n_comp <= u32::MAX,
        group * merge_group <= usize::MAX,
        (t + 1) * n_comp <= scores.len(),
        t * candidate_stride + n_sets * top_k <= candidates.len(),
        t * out_stride + (group + 1) * top_k <= old(out).len(),
    ensures
        final(out)@ == if group * merge_group >= n_sets {
            old(out)@
        } else {
            written(
                old(out)@,
                t * out_stride + group * top_k,
                best_rows(
                    candidates_of(
                        scores@,
                        t * n_comp,
                        n_comp as int,
                        candidates@,
                        t * candidate_stride + (group * merge_group) * top_k,
                        group_len(n_sets as int, group * merge_group, merge_group as int) * top_k,
                        n_sort as int,
                    ),
                    top_k as int,
                ),
            )
        },
{
    assert((t + 1) * n_comp == t * n_comp + n_comp) by (nonlinear_arith);
    assert((group + 1) * top_k == group * top_k + top_k) by (nonlinear_arith);
    assert(t * n_comp >= 0 && t * candidate_stride >= 0 && t * out_stride >= 0 && group * top_k
        >= 0) by (nonlinear_arith);
    let set0: usize = group * merge_group;
    if set0 >= n_sets {
        return ;
    }
    let rem: usize = n_sets - set0;
    let count: usize = if rem < merge_group {
        rem
    } else {
        merge_group
    };
    assert(count * top_k <= merge_group * top_k) by (nonlinear_arith)
        requires
            count <= merge_group,
    ;
    assert(set0 * top_k + count * top_k <= n_sets * top_k) by (nonlinear_arith)
        requires
            set0 + count <= n_sets,
    ;
    assert(count * top_k >= 0 && set0 * top_k >= 0) by (nonlinear_arith);
    let items: Vec<Scored> = load_candidates(
        scores,
        t * n_comp,
        n_comp,
        candidates,
        t * candidate_stride + set0 * top_k,
        count * top_k,
        n_sort,
    );
    write_best(items, top_k, out, t * out_stride + group * top_k);
}

/// The numbers as items to be sorted upwards.
pub open spec fn as_rising(s: Seq<i32>) -> Seq<Rising> {
    s.map_values(|v: i32| Rising(v))
}

/// The numbers of sorted items.
pub open spec fn rising_values(s: Seq<Rising>) -> Seq<i32> {
    s.map_values(|v: Rising| v.0)
}

/// Sorts the 512 numbers of token `t` upwards.
pub fn indexed_topk_sort_512_asc(t: usize, src: &[i32], dst: &mut Vec<i32>)
    requires
        (t + 1) * 512 <= src.len(),
        (t + 1) * 512 <= old(dst).len(),
    ensures
        final(dst)@ == written(
            old(dst)@,
            t * 512,
            rising_values(network(as_rising(src@.subrange(t * 512, (t + 1) * 512)))),
        ),
{
    let base: usize = t * 512;
    let ghost row = src@.subrange(t * 512, (t + 1) * 512);
    let mut items: Vec<Rising> = Vec::new();
    let mut i: usize = 0;
    while i < 512
        invariant
            i <= 512,
            base == t * 512,
            base + 512 <= src.len(),
            row == src@.subrange(t * 512, (t + 1) * 512),
            items@ =~= as_rising(row).take(i as int),
        decreases 512 - i,
    {
        items.push(Rising(src[base + i]));
        i = i + 1;
    }
    assert(items@ =~= as_rising(row));
    assert(is_pow2(512)) by {
        reveal_with_fuel(is_pow2, 10);
    }
    proof {
        crate::kernels::bitonic_laws::network_permutes(items@);
    }
    bitonic_sort(&mut items);
    let ghost start = dst@;
    let ghost done = rising_values(items@);
    let mut k: usize = 0;
    while k < 512
        invariant
            k <= 512,
            base == t * 512,
            base + 512 <= dst@.len(),
            base + 512 <= usize::MAX,
            dst@.len() == start.len(),
            items@.len() == 512,
            done == rising_values(items@),
            forall|x: int|
                0 <= x < dst@.len() ==> #[trigger] dst@[x] == if base <= x < base + k {
                    done[x - base]
                } else {
                    start[x]
                },
        decreases 512 - k,
    {
        dst.set(base + k, items[k].0);
        k = k + 1;
    }
    assert(dst@ =~= written(start, t * 512, done));
}

/// Whether row `c` is among the `top_k` rows of token `t`.
pub open spec fn is_chosen(topk: Seq<u32>, t: int, top_k: int, c: int) -> bool {
    exists|i: int| 0 <= i < top_k && #[trigger] topk[t * top_k + i] == c
}

/// An attention mask for `n_tokens` tokens: zero for the rows that a token has chosen, minus
/// infinity for the others.
pub fn topk_mask(topk: &[u32], n_comp: usize, n_tokens: usize, top_k: usize) -> (mask: Vec<u32>)
    requires
        n_tokens * top_k <= topk.len(),
        n_tokens * n_comp <= usize::MAX,
        n_comp <= u32::MAX,
    ensures
        mask@.len() == n_tokens * n_comp,
        forall|g: int|
            0 <= g < n_tokens * n_comp ==> #[trigger] mask@[g] == if is_chosen(
                topk@,
                g / n_comp as int,
                top_k as int,
                g % n_comp as int,
            ) {
                0u32
            } else {
                NEG_INF
            },
{
    let mut mask: Vec<u32> = Vec::new();
    let n: usize = n_tokens * n_comp;
    let mut g: usize = 0;
    while g < n
        invariant
            g <= n,
            n == n_tokens * n_comp,
            n_tokens * top_k <= topk.len(),
            n_comp <= u32::MAX,
            mask@.len() == g,
            forall|x: int|
                0 <= x < g ==> #[trigger] mask@[x] == if is_chosen(
                    topk@,
                    x / n_comp as int,
                    top_k as int,
                    x % n_comp as int,
                ) {
                    0u32
                } else {
                    NEG_INF
                },
        decreases n - g,
    {
        assert(n_comp > 0) by (nonlinear_arith)
            requires
                n == n_tokens * n_comp,
                g < n,
                n_comp >= 0,
        ;
        let t: usize = g / n_comp;
        let c: u32 = (g % n_comp) as u32;
        proof {
            vstd::arithmetic::div_mod::lemma_fundamental_div_mod(g as int, n_comp as int);
            assert(t < n_tokens) by (nonlinear_arith)
                requires
                    n_comp * t <= g,
                    g < n_tokens * n_comp,
                    n_comp > 0,
            ;
            assert(t * top_k + top_k <= n_tokens * top_k) by (nonlinear_arith)
                requires
                    t + 1 <= n_tokens,
            ;
            assert(t * top_k >= 0) by (nonlinear_arith);
        }
        let base: usize = t * top_k;
        let mut found: bool = false;
        let mut i: usize = 0;
        while i < top_k && !found
            invariant
                i <= top_k,
                base == t * top_k,
                base + top_k <= topk.len(),
                found ==> is_chosen(topk@, t as int, top_k as int, c as int),
                !found ==> forall|x: int| 0 <= x < i ==> #[trigger] topk@[t * top_k + x] != c,
            decreases top_k - i,
        {
            if topk[base + i] == c {
                assert(topk@[t * top_k + i] == c);
                found = true;
            }
            i = i + 1;
        }
        mask.push(if found {
            0
        } else {
            NEG_INF
        });
        g = g + 1;
    }
    mask
}

/// The first place of a list at which a score is better than the one there, or the end.
pub open spec fn insert_place(
    scores: Seq<u32>,
    base: int,
    list: Seq<u32>,
    c: u32,
    i: int,
) -> int
    decreases list.len() - i,
{
    if i >= list.len() || better(
        scores[base + c],
        c,
        scores[base + list[i]],
        list[i],
    ) {
        i
    } else {
        insert_place(scores, base, list, c, i + 1)
    }
}

/// The list with `c` put in its place, cut to `k`.
pub open spec fn insert_row(scores: Seq<u32>, base: int, list: Seq<u32>, c: u32, k: int) -> Seq<
    u32,
> {
    let p = insert_place(scores, base, list, c, 0);
    let longer = list.insert(p, c);
    if longer.len() > k {
        longer.take(k)
    } else {
        longer
    }
}

/// The best `k` of the first `n` rows, by insertion one after the other.
pub open spec fn inserted(scores: Seq<u32>, base: int, n: nat, k: int) -> Seq<u32>
    decreases n,
{
    if n == 0 {
        Seq::empty()
    } else {
        insert_row(scores, base, inserted(scores, base, (n - 1) as nat, k), (n - 1) as u32, k)
    }
}

/// A list filled up with zeros.
pub open spec fn zero_filled(list: Seq<u32>, k: int) -> Seq<u32> {
    Seq::new(
        k as nat,
        |i: int|
            if i < list.len() {
                list[i]
            } else {
                0
            },
    )
}

/// Selection of the best `top_k` of the `n_comp` scores of token `t`, by insertion into a sorted
/// list. Places that no row takes hold 0.
pub fn indexer_topk(
    t: usize,
    scores: &[u32],
    selected: &mut Vec<u32>,
    n_comp: usize,
    top_k: usize,
)
    requires
        (t + 1) * n_comp <= scores.len(),
        (t + 1) * top_k <= old(selected).len(),
        n_comp <= u32::MAX,
        top_k < usize::MAX,
    ensures
        final(selected)@ == written(
            old(selected)@,
            t * top_k,
            zero_filled(inserted(scores@, t * n_comp, n_comp as nat, top_k as int), top_k as int),
        ),
{
    assert((t + 1) * n_comp == t * n_comp + n_comp) by (nonlinear_arith);
    assert((t + 1) * top_k == t * top_k + top_k) by (nonlinear_arith);
    assert(t * n_comp >= 0 && t * top_k >= 0) by (nonlinear_arith);
    let base: usize = t * n_comp;
    let at: usize = t * top_k;
    let mut list: Vec<u32> = Vec::new();
    let mut c: usize = 0;
    while c < n_comp
        invariant
            c <= n_comp,
            n_comp <= u32::MAX,
            base == t * n_comp,
            base + n_comp <= scores.len(),
            top_k < usize::MAX,
            list@.len() <= top_k,
            list@ == inserted(scores@, base as int, c as nat, top_k as int),
            forall|x: int| 0 <= x < list@.len() ==> #[trigger] list@[x] < c,
        decreases n_comp - c,
    {
        let v: u32 = scores[base + c];
        let mut i: usize = 0;
        while i < list.len() && !topk_score_better(
            v,
            c as u32,
            scores[base + list[i] as usize],
            list[i],
        )
            invariant
                i <= list@.len(),
                c < n_comp,
                n_comp <= u32::MAX,
                base + n_comp <= scores.len(),
                v == scores@[base + c],
                forall|x: int| 0 <= x < list@.len() ==> #[trigger] list@[x] < c,
                insert_place(scores@, base as int, list@, c as u32, 0) == insert_place(
                    scores@,
                    base as int,
                    list@,
                    c as u32,
                    i as int,
                ),
            decreases list@.len() - i,
        {
            i = i + 1;
        }
        let ghost before = list@;
        list.insert(i, c as u32);
        if list.len() > top_k {
            list.truncate(top_k);
        }
        c = c + 1;
        assert forall|x: int| 0 <= x < list@.len() implies #[trigger] list@[x] < c by {
            if x < i {
                assert(list@[x] == before[x]);
            } else if x > i {
                assert(list@[x] == before[x - 1]);
            }
        }
    }
    let ghost full = zero_filled(list@, top_k as int);
    let ghost start = selected@;
    let mut i: usize = 0;
    while i < top_k
        invariant
            i <= top_k,
            at + top_k <= selected@.len(),
            at + top_k <= usize::MAX,
            selected@.len() == start.len(),
            full == zero_filled(list@, top_k as int),
            forall|x: int|
                0 <= x < selected@.len() ==> #[trigger] selected@[x] == if at <= x < at + i {
                    full[x - at]
                } else {
                    start[x]
                },
        decreases top_k - i,
    {
        selected.set(
            at + i,
            if i < list.len() {
                list[i]
            } else {
                0
            },
        );
        i = i + 1;
    }
    assert(selected@ =~= written(start, t * top_k, full));
}

} // verus!
