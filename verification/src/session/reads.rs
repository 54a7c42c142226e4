//! What a planned attention step reads is what earlier steps have stored.
use vstd::prelude::*;

use crate::kernels::attention::{
    decode_raw_rows, decode_visible, prompt_window, raw_rows, ring_rows, selectable, RawCache, Row,
};
use crate::kernels::kv_cache::in_ring;
use crate::model::N_SWA;
use crate::session::layer::{raw_count, raw_first};

verus! {

/// The raw cache as the attention steps of the token at `pos` describe it.
pub open spec fn cache_at(pos: u32) -> RawCache {
    RawCache {
        n_tokens: 1,
        pos0: pos,
        n_raw: raw_count(pos as int) as u32,
        raw_cap: N_SWA as u32,
        raw_start: raw_first(pos as int) as u32,
    }
}

/// Attention of a token reads the last positions of its window, its own among them, each in the
/// row of the ring in which it was stored; with or without compressed rows.
pub proof fn window_is_read_where_it_was_stored(pos: u32, ratio: int)
    requires
        pos < u32::MAX,
        ratio >= 0,
    ensures
        cache_at(pos).wf(),
        decode_raw_rows(cache_at(pos), 0, N_SWA as int, ratio) == Seq::new(
            raw_count(pos as int) as nat,
            |r: int| Row::Raw(((pos + 1 - raw_count(pos as int) + r) % N_SWA as int) as u32),
        ),
        cache_at(pos).rows(0, N_SWA as int) == decode_raw_rows(
            cache_at(pos),
            0,
            N_SWA as int,
            ratio,
        ),
{
    let c = cache_at(pos);
    let n = raw_count(pos as int);
    let first = pos + 1 - n;
    assert(c.range(0, N_SWA as int) == (0int, n));
    let want = Seq::new(
        n as nat,
        |r: int| Row::Raw(((pos + 1 - raw_count(pos as int) + r) % N_SWA as int) as u32),
    );
    assert forall|r: int| 0 <= r < n implies (first % 128 + r) % 128 == #[trigger] ((first + r)
        % 128) by {}
    assert(ring_rows(c.raw_start as int, n as nat, N_SWA as int) =~= want);
}

/// The position that the token at `pos` reads in place `r`.
pub open spec fn read_position(pos: int, r: int) -> int {
    pos + 1 - raw_count(pos) + r
}

/// When a token has been stored as the last one, every position that its attention reads is in the
/// ring.
pub proof fn decoding_reads_its_window(pos: u32, r: int)
    requires
        pos < u32::MAX,
        0 <= r < raw_count(pos as int),
    ensures
        in_ring(read_position(pos as int, r), pos + 1, N_SWA as int),
{
}

/// In the first chunk of a fresh session, where tokens attend together, a token reads the window
/// rows that it would read while it is decoded.
pub proof fn first_chunk_reads_like_decoding(t: u32, ratio: int)
    requires
        t < N_SWA,
        ratio >= 0,
    ensures
        raw_rows(
            t + 1 - prompt_window(t as int, N_SWA as int),
            prompt_window(t as int, N_SWA as int) as nat,
        ) == decode_raw_rows(cache_at(t), 0, N_SWA as int, ratio),
{
    window_is_read_where_it_was_stored(t, ratio);
    assert(raw_rows(
        t + 1 - prompt_window(t as int, N_SWA as int),
        prompt_window(t as int, N_SWA as int) as nat,
    ) =~= decode_raw_rows(cache_at(t), 0, N_SWA as int, ratio));
}

/// A token sees every compressed row whose tokens have all come, whether the rows are all read or
/// selected from.
pub proof fn all_compressed_rows_are_seen(pos: u32, ratio: int, n_comp: int)
    requires
        pos < u32::MAX,
        ratio > 0,
        0 <= n_comp <= (pos + 1) / ratio,
    ensures
        decode_visible(cache_at(pos), 0, n_comp, ratio) == n_comp,
        selectable(cache_at(pos), 0, n_comp, ratio) == n_comp,
{
}

} // verus!
