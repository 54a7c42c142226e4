//! Attention looks back only, at all of its window, and every kernel looks at the same rows.
use vstd::prelude::*;

use crate::kernels::attention::{
    as_peaks, comp_rows, decode_raw_rows, decode_visible, highest, in_window, key_use, online_count,
    prompt_rows, prompt_start, prompt_window, raw_rows, ring_rows, selectable, selected_rows,
    stage_len, transposed_from, vector_in_bounds, vector_place, visible, KeyUse, RawCache, Row,
    MAX_RAW_ROWS, MAX_SELECTED_ROWS,
};
use crate::kernels::float::{is_nan, key};
use crate::kernels::indexer_laws::pigeonhole;
use crate::kernels::reduce::{halving_finds_the_largest, peak_of};
use crate::pow2::is_pow2;

verus! {

/// A token attends to stored positions only, to none after its own, and to none before its window.
pub proof fn attention_looks_back_in_its_window(cache: RawCache, t: int, window: int, r: int)
    requires
        cache.wf(),
        0 <= t < cache.n_tokens,
        window >= 0,
        0 <= r < cache.range(t, window).1,
    ensures
        ({
            let p = cache.first() + cache.range(t, window).0 + r;
            &&& cache.first() <= p < cache.first() + cache.n_raw
            &&& in_window(cache.pos0 + t, p, window)
        }),
{
}

/// A token attends to every stored position in its window, as long as a kernel reads so many.
pub proof fn attention_sees_all_of_its_window(cache: RawCache, t: int, window: int, p: int)
    requires
        cache.wf(),
        0 <= t < cache.n_tokens,
        0 < window <= MAX_RAW_ROWS,
        cache.first() <= p < cache.first() + cache.n_raw,
        in_window(cache.pos0 + t, p, window),
    ensures
        cache.range(t, window).0 <= p - cache.first() < cache.range(t, window).0 + cache.range(
            t,
            window,
        ).1,
{
}

/// Rows of a ring that has room for them are different rows.
pub proof fn ring_rows_differ(from: int, n: nat, raw_cap: int, i: int, j: int)
    requires
        0 <= from,
        0 <= i < j < n,
        n <= raw_cap <= u32::MAX,
    ensures
        ring_rows(from, n, raw_cap)[i] != ring_rows(from, n, raw_cap)[j],
{
    let a = from + i;
    let b = from + j;
    vstd::arithmetic::div_mod::lemma_fundamental_div_mod(a, raw_cap);
    vstd::arithmetic::div_mod::lemma_fundamental_div_mod(b, raw_cap);
    let qa = a / raw_cap;
    let qb = b / raw_cap;
    if a % raw_cap == b % raw_cap {
        assert(raw_cap * qb - raw_cap * qa == b - a);
        assert(false) by (nonlinear_arith)
            requires
                raw_cap * qb - raw_cap * qa == b - a,
                0 < b - a < raw_cap,
        ;
    }
}

/// A token sees a compressed row exactly where all the tokens of the row have come.
pub proof fn compressed_rows_look_back(qpos: int, ratio: int, n_comp: int, c: int)
    requires
        qpos >= 0,
        ratio > 0,
        n_comp >= 0,
        0 <= c < n_comp,
    ensures
        c < visible(qpos, ratio, n_comp) <==> (c + 1) * ratio <= qpos + 1,
        0 <= visible(qpos, ratio, n_comp) <= n_comp,
{
    let v = (qpos + 1) / ratio;
    vstd::arithmetic::div_mod::lemma_fundamental_div_mod(qpos + 1, ratio);
    assert(0 <= v) by (nonlinear_arith)
        requires
            qpos + 1 == ratio * v + (qpos + 1) % ratio,
            0 <= (qpos + 1) % ratio < ratio,
            qpos >= 0,
    ;
    if c < v {
        assert((c + 1) * ratio <= ratio * v) by (nonlinear_arith)
            requires
                c + 1 <= v,
                ratio > 0,
        ;
    } else {
        assert((c + 1) * ratio >= ratio * v + ratio) by (nonlinear_arith)
            requires
                c >= v,
                ratio > 0,
        ;
    }
}

/// Without a mask the two prompt kernels attend to the same rows.
pub proof fn prompt_kernels_agree(t: int, n_comp: int, window: int, ratio: int, mask: Seq<u32>)
    requires
        t >= 0,
        n_comp >= 0,
        window >= 0,
        ratio > 0,
    ensures
        prompt_rows(t, mask, false, n_comp, window, ratio) == raw_rows(
            prompt_start(t, window),
            (t + 1 - prompt_start(t, window)) as nat,
        ) + comp_rows(
            Seq::empty(),
            false,
            0,
            if n_comp != 0 && ratio != 0 {
                visible(t, ratio, n_comp) as nat
            } else {
                0
            },
        ),
{
    if n_comp == 0 {
        assert((t + 1) / ratio >= 0) by (nonlinear_arith)
            requires
                t >= 0,
                ratio > 0,
        ;
    }
    assert(prompt_rows(t, mask, false, n_comp, window, ratio) =~= raw_rows(
        prompt_start(t, window),
        (t + 1 - prompt_start(t, window)) as nat,
    ) + comp_rows(
        Seq::empty(),
        false,
        0,
        if n_comp != 0 && ratio != 0 {
            visible(t, ratio, n_comp) as nat
        } else {
            0
        },
    ));
}

/// With a window and no compressed rows, the raw kernel and the mixed kernel attend to the same
/// rows.
pub proof fn raw_kernel_agrees(t: int, window: int, ratio: int, mask: Seq<u32>)
    requires
        t >= 0,
        window > 0,
        ratio > 0,
    ensures
        prompt_rows(t, mask, false, 0, window, ratio) == raw_rows(
            t + 1 - prompt_window(t, window),
            prompt_window(t, window) as nat,
        ),
{
    assert((t + 1) / ratio >= 0) by (nonlinear_arith)
        requires
            t >= 0,
            ratio > 0,
    ;
    assert(prompt_rows(t, mask, false, 0, window, ratio) =~= raw_rows(
        t + 1 - prompt_window(t, window),
        prompt_window(t, window) as nat,
    ));
}

/// The keys that keep their score are those of the rows that the token attends to.
pub proof fn softmax_keeps_the_attended_keys(
    t: int,
    k: int,
    mask: Seq<u32>,
    n_tokens: int,
    n_comp: int,
    window: int,
    ratio: int,
)
    requires
        0 <= t < n_tokens <= u32::MAX,
        0 <= k,
        0 <= n_comp,
        0 <= window,
        ratio > 0,
    ensures
        key_use(t, k, mask, false, n_tokens, n_comp, window, ratio) == KeyUse::Keep <==> if k
            < n_tokens {
            prompt_start(t, window) <= k <= t
        } else {
            k - n_tokens < visible(t, ratio, n_comp)
        },
{
}

/// Where there is a ratio and no mask, both decode kernels attend to the same rows.
pub proof fn decode_kernels_agree(
    cache: RawCache,
    t: int,
    n_comp: int,
    window: int,
    ratio: int,
    mask: Seq<u32>,
)
    requires
        ratio > 0,
        n_comp >= 0,
    ensures
        decode_raw_rows(cache, t, window, ratio) + comp_rows(
            mask,
            false,
            t * n_comp,
            decode_visible(cache, t, n_comp, ratio) as nat,
        ) == cache.rows(t, window) + comp_rows(
            Seq::empty(),
            false,
            0,
            if ratio == 0 && cache.n_tokens != 1 {
                0
            } else {
                decode_visible(cache, t, n_comp, ratio) as nat
            },
        ),
{
    assert(comp_rows(mask, false, t * n_comp, decode_visible(cache, t, n_comp, ratio) as nat)
        =~= comp_rows(
        Seq::empty(),
        false,
        0,
        if ratio == 0 && cache.n_tokens != 1 {
            0
        } else {
            decode_visible(cache, t, n_comp, ratio) as nat
        },
    ));
}

/// A selection names rows in its first entries and none behind them.
pub open spec fn packed(topk: Seq<i32>, at: int, n: int, count: int, limit: int) -> bool {
    &&& forall|i: int| 0 <= i < count ==> 0 <= #[trigger] topk[at + i] < limit
    &&& forall|i: int| count <= i < n ==> !(0 <= #[trigger] topk[at + i] < limit)
}

proof fn selected_are_first(topk: Seq<i32>, at: int, n: nat, count: int, limit: int, m: nat)
    requires
        packed(topk, at, n as int, count, limit),
        0 <= count <= n,
        count <= MAX_SELECTED_ROWS,
        m <= n,
    ensures
        selected_rows(topk, at, m, limit) == Seq::new(
            (if m < count {
                m as int
            } else {
                count
            }) as nat,
            |i: int| Row::Comp(topk[at + i] as u32),
        ),
    decreases m,
{
    let want = Seq::new(
        (if m < count {
            m as int
        } else {
            count
        }) as nat,
        |i: int| Row::Comp(topk[at + i] as u32),
    );
    if m > 0 {
        selected_are_first(topk, at, n, count, limit, (m - 1) as nat);
        let i = m - 1;
        let c = topk[at + i];
        if i < count {
            assert(0 <= topk[at + i] < limit);
        } else {
            assert(!(0 <= topk[at + i] < limit));
        }
    }
    assert(selected_rows(topk, at, m, limit) =~= want);
}

/// Both kernels read the same selected rows, where the selection is packed.
pub proof fn selected_kernels_agree(
    cache: RawCache,
    t: int,
    topk: Seq<i32>,
    n_comp: int,
    top_k: nat,
    ratio: int,
)
    requires
        selectable(cache, t, n_comp, ratio) >= 0,
        packed(
            topk,
            t * top_k,
            top_k as int,
            online_count(top_k as int, selectable(cache, t, n_comp, ratio)),
            selectable(cache, t, n_comp, ratio),
        ),
    ensures
        selected_rows(topk, t * top_k, top_k, selectable(cache, t, n_comp, ratio)) == Seq::new(
            online_count(top_k as int, selectable(cache, t, n_comp, ratio)) as nat,
            |i: int| Row::Comp(topk[t * top_k + i] as u32),
        ),
{
    let limit = selectable(cache, t, n_comp, ratio);
    let count = online_count(top_k as int, limit);
    selected_are_first(topk, t * top_k, top_k, count, limit, top_k);
}

/// Of the `n` entries of a selection from `at` on, those that name a row below `limit` name each of
/// these rows once.
pub open spec fn names_each_once(topk: Seq<i32>, at: int, n: int, limit: int) -> bool {
    &&& forall|i: int, j: int|
        #![trigger topk[at + i], topk[at + j]]
        0 <= i < j < n && 0 <= topk[at + i] < limit ==> topk[at + i] != topk[at + j]
    &&& forall|c: int| 0 <= c < limit ==> #[trigger] is_named(topk, at, n, c)
}

/// One of the `n` entries from `at` on names row `c`.
pub open spec fn is_named(topk: Seq<i32>, at: int, n: int, c: int) -> bool {
    exists|i: int| 0 <= i < n && #[trigger] topk[at + i] == c
}

/// The entries up to `n` that name a visible row are selected, each once.
proof fn named_rows_are_selected(topk: Seq<i32>, at: int, n: nat, all: int, limit: int)
    requires
        n <= all,
        0 <= limit <= MAX_SELECTED_ROWS,
        names_each_once(topk, at, all, limit),
    ensures
        selected_rows(topk, at, n, limit).no_duplicates(),
        forall|i: int|
            0 <= i < n && 0 <= #[trigger] topk[at + i] < limit ==> selected_rows(
                topk,
                at,
                n,
                limit,
            ).contains(Row::Comp(topk[at + i] as u32)),
        forall|k: int|
            0 <= k < selected_rows(topk, at, n, limit).len() ==> (#[trigger] selected_rows(
                topk,
                at,
                n,
                limit,
            )[k] matches Row::Comp(c) && c < limit && is_named(topk, at, n as int, c as int)),
    decreases n,
{
    if n > 0 {
        let m = (n - 1) as nat;
        named_rows_are_selected(topk, at, m, all, limit);
        let before = selected_rows(topk, at, m, limit);
        let now = selected_rows(topk, at, n, limit);
        let c = topk[at + m];
        assert forall|x: int| is_named(topk, at, m as int, x) implies is_named(
            topk,
            at,
            n as int,
            x,
        ) by {
            let i = choose|i: int| 0 <= i < m && #[trigger] topk[at + i] == x;
            assert(topk[at + i] == x);
        }
        if 0 <= c < limit {
            if before.contains(Row::Comp(c as u32)) {
                let k = choose|k: int| 0 <= k < before.len() && before[k] == Row::Comp(c as u32);
                let i = choose|i: int| 0 <= i < m && #[trigger] topk[at + i] == c;
                assert(topk[at + m] != topk[at + i]);
            }
            row_fits(before, c as u32, limit);
            assert(now == before.push(Row::Comp(c as u32)));
            assert(now[now.len() - 1] == Row::Comp(c as u32));
            assert(is_named(topk, at, n as int, c as int)) by {
                assert(topk[at + m] == c);
            }
        }
        assert forall|i: int| 0 <= i < n && 0 <= #[trigger] topk[at + i] < limit implies
            now.contains(Row::Comp(topk[at + i] as u32)) by {
            if i < m {
                let k = before.index_of(Row::Comp(topk[at + i] as u32));
                assert(now[k] == before[k]);
            } else {
                assert(now[now.len() - 1] == Row::Comp(c as u32));
            }
        }
    }
}

/// Different rows below a limit, none of them row `c`, leave room for it.
proof fn row_fits(s: Seq<Row>, c: u32, limit: int)
    requires
        s.no_duplicates(),
        c < limit,
        forall|k: int| 0 <= k < s.len() ==> (#[trigger] s[k] matches Row::Comp(x) && x < limit),
        !s.contains(Row::Comp(c)),
    ensures
        s.len() < limit,
{
    let all = s.push(Row::Comp(c));
    let f = |i: int| all[i]->Comp_0 as int;
    assert forall|i: int, j: int| 0 <= i < j < all.len() implies #[trigger] f(i) != #[trigger] f(
        j,
    ) by {
        if j == s.len() {
            assert(s[i] != Row::Comp(c));
        } else {
            assert(s[i] != s[j]);
        }
    }
    pigeonhole(f, all.len() as int, limit);
}

/// A selection that names every visible row once, in any order and with any other entries between,
/// attends to the rows that decoding without a selection attends to.
pub proof fn full_selections_change_nothing(
    cache: RawCache,
    t: int,
    topk: Seq<i32>,
    n_comp: int,
    top_k: nat,
    window: int,
    ratio: int,
    mask: Seq<u32>,
)
    requires
        ratio > 0,
        0 <= n_comp <= u32::MAX,
        0 <= t < cache.n_tokens,
        0 <= visible(cache.pos0 + t, ratio, n_comp) <= MAX_SELECTED_ROWS,
        names_each_once(
            topk,
            t * top_k,
            top_k as int,
            visible(cache.pos0 + t, ratio, n_comp),
        ),
    ensures
        (cache.rows(t, window) + selected_rows(
            topk,
            t * top_k,
            top_k,
            selectable(cache, t, n_comp, ratio),
        )).to_multiset() == (decode_raw_rows(cache, t, window, ratio) + comp_rows(
            mask,
            false,
            t * n_comp,
            decode_visible(cache, t, n_comp, ratio) as nat,
        )).to_multiset(),
{
    let v = visible(cache.pos0 + t, ratio, n_comp);
    assert(selectable(cache, t, n_comp, ratio) == v);
    assert(decode_visible(cache, t, n_comp, ratio) == v) by {
        if n_comp == 0 {
            vstd::arithmetic::div_mod::lemma_div_pos_is_pos(cache.pos0 + t + 1, ratio);
        }
    }
    let raw = cache.rows(t, window);
    let a = selected_rows(topk, t * top_k, top_k, v);
    let b = comp_rows(mask, false, t * n_comp, v as nat);
    named_rows_are_selected(topk, t * top_k, top_k, top_k as int, v);
    assert(b.no_duplicates());
    assert forall|x: Row| a.contains(x) <==> b.contains(x) by {
        if a.contains(x) {
            let k = choose|k: int| 0 <= k < a.len() && a[k] == x;
            let c = x->Comp_0;
            assert(b[c as int] == x);
        }
        if b.contains(x) {
            let c = choose|c: int| 0 <= c < b.len() && b[c] == x;
            assert(is_named(topk, t * top_k, top_k as int, c));
            let i = choose|i: int| 0 <= i < top_k && #[trigger] topk[t * top_k + i] == c;
            assert(topk[t * top_k + i] == c);
        }
    }
    same_items(a, b);
    vstd::seq_lib::lemma_multiset_commutative(raw, a);
    vstd::seq_lib::lemma_multiset_commutative(raw, b);
}

proof fn same_items(a: Seq<Row>, b: Seq<Row>)
    requires
        a.no_duplicates(),
        b.no_duplicates(),
        forall|x: Row| a.contains(x) <==> b.contains(x),
    ensures
        a.to_multiset() == b.to_multiset(),
{
    broadcast use vstd::seq_lib::group_to_multiset_ensures;

    a.lemma_multiset_has_no_duplicates();
    b.lemma_multiset_has_no_duplicates();
    assert forall|x: Row| a.to_multiset().count(x) == b.to_multiset().count(x) by {
        assert(a.contains(x) <==> a.to_multiset().count(x) > 0);
        assert(b.contains(x) <==> b.to_multiset().count(x) > 0);
        if a.to_multiset().contains(x) {
            assert(a.to_multiset().count(x) == 1);
            assert(b.to_multiset().contains(x));
            assert(b.to_multiset().count(x) == 1);
        }
    }
    assert(a.to_multiset() =~= b.to_multiset());
}

/// Selected rows are rows that the token sees.
pub proof fn selected_rows_are_visible(topk: Seq<i32>, at: int, n: nat, limit: int)
    ensures
        forall|i: int|
            0 <= i < selected_rows(topk, at, n, limit).len() ==> (#[trigger] selected_rows(
                topk,
                at,
                n,
                limit,
            )[i] matches Row::Comp(c) && c < limit),
        selected_rows(topk, at, n, limit).len() <= MAX_SELECTED_ROWS,
    decreases n,
{
    if n > 0 {
        selected_rows_are_visible(topk, at, (n - 1) as nat, limit);
    }
}

/// Every row is loaded in one stage.
pub proof fn stages_load_every_row(i: int, n: int)
    requires
        0 <= i < n,
    ensures
        0 <= i - (i / 4) * 4 < stage_len((i / 4) * 4, n),
        forall|s: int|
            0 <= s && 0 <= i - #[trigger] (s * 4) < stage_len(s * 4, n) ==> s == i / 4,
{
}

/// The element of a lane.
pub open spec fn lane_place(lane: int, g: int, j: int) -> int {
    g * 128 + lane * 4 + j
}

proof fn lane_of_element(d: int, lane: int, g: int, j: int)
    requires
        0 <= lane < 32,
        0 <= g < 4,
        0 <= j < 4,
        d == g * 128 + lane * 4 + j,
    ensures
        lane == (d % 128) / 4,
        g == d / 128,
        j == d % 4,
{
    let r = lane * 4 + j;
    assert(d == g * 128 + r && 0 <= r < 128);
    assert(d / 128 == g && d % 128 == r);
    assert(r / 4 == lane);
    assert(d % 4 == j);
}

/// Every element of a row is the work of one lane.
pub proof fn lanes_share_the_elements(d: int)
    requires
        0 <= d < 512,
    ensures
        d == lane_place((d % 128) / 4, d / 128, d % 4),
        d == (d / 128) * 128 + ((d % 128) / 4) * 4 + d % 4,
        forall|lane: int, g: int, j: int|
            0 <= lane < 32 && 0 <= g < 4 && 0 <= j < 4 && d == #[trigger] lane_place(lane, g, j)
                ==> lane == (d % 128) / 4 && g == d / 128 && j == d % 4,
{
    assert forall|lane: int, g: int, j: int|
        0 <= lane < 32 && 0 <= g < 4 && 0 <= j < 4 && d == #[trigger] lane_place(
            lane,
            g,
            j,
        ) implies lane == (d % 128) / 4 && g == d / 128 && j == d % 4 by {
        lane_of_element(d, lane, g, j);
    }
}

/// The highest score is no lower than the sink and every score that is a number, and it is one of
/// them.
pub proof fn highest_is_highest(sink: u32, scores: Seq<u32>, n: nat)
    requires
        !is_nan(sink),
        n <= scores.len(),
    ensures
        !is_nan(highest(sink, scores, n)),
        key(highest(sink, scores, n)) >= key(sink),
        forall|i: int|
            0 <= i < n && !is_nan(#[trigger] scores[i]) ==> key(highest(sink, scores, n)) >= key(
                scores[i],
            ),
        highest(sink, scores, n) == sink || exists|i: int|
            0 <= i < n && #[trigger] scores[i] == highest(sink, scores, n),
    decreases n,
{
    if n > 0 {
        let m = (n - 1) as nat;
        highest_is_highest(sink, scores, m);
        if highest(sink, scores, n) == highest(sink, scores, m) {
            if highest(sink, scores, m) != sink {
                let i = choose|i: int|
                    0 <= i < m && #[trigger] scores[i] == highest(sink, scores, m);
                assert(scores[i] == highest(sink, scores, n));
            }
        } else {
            assert(scores[m as int] == highest(sink, scores, n));
        }
    }
}

/// What a group of threads finds by halving is the value of one of them, and none is higher.
pub proof fn halving_finds_the_highest(v: Seq<u32>)
    requires
        is_pow2(v.len() as int),
        forall|i: int| 0 <= i < v.len() ==> !is_nan(#[trigger] v[i]),
    ensures
        v.contains(peak_of(as_peaks(v), false).val),
        forall|i: int|
            0 <= i < v.len() ==> key(#[trigger] v[i]) <= key(peak_of(as_peaks(v), false).val),
{
    let s = as_peaks(v);
    halving_finds_the_largest(s, false);
    let x = choose|x: int| 0 <= x < s.len() && s[x] == peak_of(s, false);
    assert(v[x] == peak_of(s, false).val && s[x].abs == v[x]);
    assert forall|i: int| 0 <= i < v.len() implies key(#[trigger] v[i]) <= key(
        peak_of(s, false).val,
    ) by {
        assert(s[i].abs == v[i]);
    }
}

/// A place in a block names its vector and number.
proof fn place_parts(x: int, y: int, n: int, dim: int, d: int)
    requires
        0 <= x,
        0 <= y < n,
        0 <= d < dim,
    ensures
        vector_place(x, y, n, dim, d) / dim == x * n + y,
        vector_place(x, y, n, dim, d) % dim == d,
        (x * n + y) / n == x,
        (x * n + y) % n == y,
{
    vstd::arithmetic::div_mod::lemma_fundamental_div_mod_converse(
        vector_place(x, y, n, dim, d),
        dim,
        x * n + y,
        d,
    );
    vstd::arithmetic::div_mod::lemma_fundamental_div_mod_converse(x * n + y, n, x, y);
}

/// Vector `(y, x)` of a turned block is vector `(x, y)` of its source.
pub proof fn turning_moves_vectors(x: int, y: int, a: int, b: int, dim: int, d: int)
    requires
        0 <= x < a,
        0 <= y < b,
        0 <= d < dim,
    ensures
        transposed_from(vector_place(y, x, a, dim, d), a, b, dim) == vector_place(
            x,
            y,
            b,
            dim,
            d,
        ),
        0 <= vector_place(y, x, a, dim, d) < a * b * dim,
{
    place_parts(y, x, a, dim, d);
    vector_in_bounds(y, x, b, a, dim, d);
    assert(b * a * dim == a * b * dim) by (nonlinear_arith);
}

/// Turning a block twice gives it back.
pub proof fn turning_twice_gives_back(i: int, a: int, b: int, dim: int)
    requires
        a > 0,
        b > 0,
        dim > 0,
        0 <= i < a * b * dim,
    ensures
        transposed_from(transposed_from(i, b, a, dim), a, b, dim) == i,
{
    assert(b * a * dim == a * b * dim) by (nonlinear_arith);
    crate::kernels::attention::transposed_in_bounds(i, b, a, dim);
    let q = i / dim;
    let d = i % dim;
    let y = q % b;
    let x = q / b;
    assert(transposed_from(i, b, a, dim) == vector_place(y, x, a, dim, d));
    turning_moves_vectors(x, y, a, b, dim, d);
    vstd::arithmetic::div_mod::lemma_fundamental_div_mod(i, dim);
    vstd::arithmetic::div_mod::lemma_fundamental_div_mod(q, b);
    assert(b * x == x * b) by (nonlinear_arith);
    assert(dim * q == q * dim) by (nonlinear_arith);
}

} // verus!
