//! What reading a weight file gives back of what was written to it.
use vstd::prelude::*;
use vstd::utf8::encode_utf8;

use crate::bytes::{le_bytes, le_nat, le_nat_same, le_roundtrip, pow256};
use crate::gguf::{
    align32, entries_end, entry_end, find_value, i32_array, infos, items_end, layout, scalar_bytes,
    string_array, string_at, string_bytes, string_fits, string_or_empty, string_start, tensor_at,
    tensors_at, u32_at, u64_at, value_end, Failure, GgufFile, Layout, GGUF_MAGIC, HEADER_BYTES,
    KV_ARRAY, KV_I32, KV_STRING, KV_U32,
};
use crate::model::{type_ids_are_distinct, TensorInfo, TensorType};

verus! {

/// A metadata value to be written.
pub enum Value {
    /// A value of fixed size, by its type number and its bytes.
    Scalar { vtype: u32, bytes: Seq<u8> },
    Text(Seq<u8>),
    Array { elem: u32, items: Seq<Value> },
}

/// A metadata entry to be written.
pub struct Entry {
    pub key: Seq<char>,
    pub value: Value,
}

/// The type number of a value.
pub open spec fn type_of(v: Value) -> u32 {
    match v {
        Value::Scalar { vtype, .. } => vtype,
        Value::Text(_) => KV_STRING,
        Value::Array { .. } => KV_ARRAY,
    }
}

/// The value agrees with its type and its lengths can be written.
pub open spec fn valid_value(v: Value) -> bool
    decreases v,
{
    match v {
        Value::Scalar { vtype, bytes } => scalar_bytes(vtype) == Some(bytes.len() as int),
        Value::Text(b) => b.len() < pow256(8),
        Value::Array { elem, items } => {
            &&& items.len() < pow256(8)
            &&& forall|i: int|
                0 <= i < items.len() ==> type_of(#[trigger] items[i]) == elem && valid_value(
                    items[i],
                )
        },
    }
}

/// A string of bytes as it is written: its length, then its bytes.
pub open spec fn blob(b: Seq<u8>) -> Seq<u8> {
    le_bytes(b.len(), 8) + b
}

/// A value as it is written.
pub open spec fn value_bytes(v: Value) -> Seq<u8>
    decreases v,
{
    match v {
        Value::Scalar { bytes, .. } => bytes,
        Value::Text(b) => blob(b),
        Value::Array { elem, items } => le_bytes(elem as nat, 4) + le_bytes(items.len(), 8)
            + items_bytes(items),
    }
}

/// Values written one after the other.
pub open spec fn items_bytes(items: Seq<Value>) -> Seq<u8>
    decreases items,
{
    if items.len() == 0 {
        Seq::empty()
    } else {
        value_bytes(items[0]) + items_bytes(items.drop_first())
    }
}

/// An entry can be written.
pub open spec fn valid_entry(e: Entry) -> bool {
    encode_utf8(e.key).len() < pow256(8) && valid_value(e.value)
}

/// An entry as it is written.
pub open spec fn entry_bytes(e: Entry) -> Seq<u8> {
    blob(encode_utf8(e.key)) + le_bytes(type_of(e.value) as nat, 4) + value_bytes(e.value)
}

/// Entries written one after the other.
pub open spec fn entries_bytes(es: Seq<Entry>) -> Seq<u8>
    decreases es.len(),
{
    if es.len() == 0 {
        Seq::empty()
    } else {
        entry_bytes(es[0]) + entries_bytes(es.drop_first())
    }
}

/// Dimensions written one after the other.
pub open spec fn dims_bytes(dims: Seq<u64>) -> Seq<u8>
    decreases dims.len(),
{
    if dims.len() == 0 {
        Seq::empty()
    } else {
        le_bytes(dims[0] as nat, 8) + dims_bytes(dims.drop_first())
    }
}

/// A tensor description can be written.
pub open spec fn valid_tensor(t: TensorInfo) -> bool {
    encode_utf8(t.name).len() < pow256(8) && t.dims.len() < pow256(4)
}

/// A tensor description as it is written.
pub open spec fn tensor_bytes(t: TensorInfo) -> Seq<u8> {
    blob(encode_utf8(t.name)) + le_bytes(t.dims.len(), 4) + dims_bytes(t.dims) + le_bytes(
        t.ty.id() as nat,
        4,
    ) + le_bytes(t.offset as nat, 8)
}

/// Tensor descriptions written one after the other.
pub open spec fn tensors_bytes(ts: Seq<TensorInfo>) -> Seq<u8>
    decreases ts.len(),
{
    if ts.len() == 0 {
        Seq::empty()
    } else {
        tensor_bytes(ts[0]) + tensors_bytes(ts.drop_first())
    }
}

/// What stands before the padding of a file.
pub open spec fn head_bytes(version: u32, es: Seq<Entry>, ts: Seq<TensorInfo>) -> Seq<u8> {
    le_bytes(GGUF_MAGIC as nat, 4) + le_bytes(version as nat, 4) + le_bytes(ts.len(), 8) + le_bytes(
        es.len(),
        8,
    ) + entries_bytes(es) + tensors_bytes(ts)
}

/// A whole file: head, padding to a multiple of 32 bytes, data.
pub open spec fn file_bytes(
    version: u32,
    es: Seq<Entry>,
    ts: Seq<TensorInfo>,
    data: Seq<u8>,
) -> Seq<u8> {
    let head = head_bytes(version, es, ts);
    head + Seq::new((align32(head.len() as int) - head.len()) as nat, |i: int| 0u8) + data
}

/// Every entry and every description can be written after a header of a supported version.
pub open spec fn writable_head(version: u32, es: Seq<Entry>, ts: Seq<TensorInfo>) -> bool {
    &&& version == 2 || version == 3
    &&& forall|i: int| 0 <= i < es.len() ==> valid_entry(#[trigger] es[i])
    &&& forall|i: int| 0 <= i < ts.len() ==> valid_tensor(#[trigger] ts[i])
    &&& es.len() < pow256(8)
    &&& ts.len() < pow256(8)
}

/// Everything in the file can be written, and the file can be addressed.
pub open spec fn writable(
    version: u32,
    es: Seq<Entry>,
    ts: Seq<TensorInfo>,
    data: Seq<u8>,
) -> bool {
    &&& writable_head(version, es, ts)
    &&& file_bytes(version, es, ts, data).len() + 31 <= usize::MAX
}

/// The bytes `w` stand at `p` in `d`.
pub open spec fn stands(d: Seq<u8>, p: int, w: Seq<u8>) -> bool {
    &&& 0 <= p
    &&& p + w.len() <= d.len()
    &&& forall|i: int| 0 <= i < w.len() ==> d[p + i] == #[trigger] w[i]
}

proof fn stands_split(d: Seq<u8>, p: int, a: Seq<u8>, b: Seq<u8>)
    requires
        stands(d, p, a + b),
    ensures
        stands(d, p, a),
        stands(d, p + a.len(), b),
{
    assert forall|i: int| 0 <= i < a.len() implies d[p + i] == #[trigger] a[i] by {
        assert((a + b)[i] == a[i]);
    }
    assert forall|i: int| 0 <= i < b.len() implies d[p + a.len() + i] == #[trigger] b[i] by {
        assert((a + b)[a.len() + i] == b[i]);
    }
}

proof fn stands_number(d: Seq<u8>, p: int, v: nat, n: nat)
    requires
        stands(d, p, le_bytes(v, n)),
        v < pow256(n),
    ensures
        le_nat(d, p, n) == v,
        le_bytes(v, n).len() == n,
        p + n <= d.len(),
{
    le_roundtrip(v, n);
    let w = le_bytes(v, n);
    assert forall|i: int| 0 <= i < n implies #[trigger] d[p + i] == w[0 + i] by {
        assert(w[i] == d[p + i]);
    }
    le_nat_same(d, p, w, 0, n);
}

proof fn pow256_values()
    ensures
        pow256(4) == 0x1_0000_0000,
        pow256(8) == 0x1_0000_0000_0000_0000,
{
    reveal_with_fuel(pow256, 9);
}

proof fn stands_blob(d: Seq<u8>, p: int, b: Seq<u8>)
    requires
        stands(d, p, blob(b)),
        b.len() < pow256(8),
    ensures
        string_fits(d, p),
        u64_at(d, p) == b.len(),
        string_bytes(d, p) == b,
        blob(b).len() == 8 + b.len(),
{
    pow256_values();
    stands_split(d, p, le_bytes(b.len(), 8), b);
    stands_number(d, p, b.len(), 8);
    assert(string_bytes(d, p) =~= b) by {
        assert forall|i: int| 0 <= i < b.len() implies string_bytes(d, p)[i] == #[trigger] b[i] by {
            assert(d[p + 8 + i] == b[i]);
        }
    }
}

proof fn stands_text(d: Seq<u8>, p: int, s: Seq<char>)
    requires
        stands(d, p, blob(encode_utf8(s))),
        encode_utf8(s).len() < pow256(8),
    ensures
        string_at(d, p) == Ok::<(Seq<char>, int), Failure>(
            (s, p + blob(encode_utf8(s)).len()),
        ),
{
    stands_blob(d, p, encode_utf8(s));
    vstd::utf8::encode_utf8_valid_utf8(s);
    vstd::utf8::encode_utf8_decode_utf8(s);
}

/// A value that was written is skipped to its end.
pub proof fn written_value_ends(d: Seq<u8>, p: int, v: Value)
    requires
        stands(d, p, value_bytes(v)),
        valid_value(v),
        d.len() <= usize::MAX,
    ensures
        value_end(d, p, type_of(v)) == Ok::<int, Failure>(p + value_bytes(v).len()),
        value_bytes(v).len() > 0,
    decreases v,
{
    match v {
        Value::Scalar { vtype, bytes } => {},
        Value::Text(b) => {
            stands_blob(d, p, b);
        },
        Value::Array { elem, items } => {
            pow256_values();
            let a = le_bytes(elem as nat, 4);
            let b = le_bytes(items.len(), 8);
            stands_split(d, p, a + b, items_bytes(items));
            stands_split(d, p, a, b);
            stands_number(d, p, elem as nat, 4);
            stands_number(d, p + 4, items.len(), 8);
            written_items_end(d, p + 12, elem, items);
        },
    }
}

proof fn written_items_end(d: Seq<u8>, p: int, elem: u32, items: Seq<Value>)
    requires
        stands(d, p, items_bytes(items)),
        d.len() <= usize::MAX,
        forall|i: int|
            0 <= i < items.len() ==> type_of(#[trigger] items[i]) == elem && valid_value(items[i]),
    ensures
        items_end(d, p, elem, items.len() as int) == Ok::<int, Failure>(
            p + items_bytes(items).len(),
        ),
    decreases items,
{
    if items.len() > 0 {
        let w = value_bytes(items[0]);
        let rest = items.drop_first();
        stands_split(d, p, w, items_bytes(rest));
        written_value_ends(d, p, items[0]);
        assert forall|i: int| 0 <= i < rest.len() implies type_of(#[trigger] rest[i]) == elem
            && valid_value(rest[i]) by {
            assert(rest[i] == items[i + 1]);
        }
        written_items_end(d, p + w.len(), elem, rest);
    }
}

proof fn written_entry_ends(d: Seq<u8>, p: int, e: Entry)
    requires
        stands(d, p, entry_bytes(e)),
        valid_entry(e),
        d.len() <= usize::MAX,
    ensures
        entry_end(d, p) == Ok::<int, Failure>(p + entry_bytes(e).len()),
        string_at(d, p) matches Ok((k, next)) && k == e.key && u32_at(d, next) == type_of(e.value)
            && stands(d, next + 4, value_bytes(e.value)),
{
    pow256_values();
    let k = blob(encode_utf8(e.key));
    let t = le_bytes(type_of(e.value) as nat, 4);
    let w = value_bytes(e.value);
    stands_split(d, p, k + t, w);
    stands_split(d, p, k, t);
    stands_text(d, p, e.key);
    stands_number(d, p + k.len(), type_of(e.value) as nat, 4);
    written_value_ends(d, p + k.len() + 4, e.value);
}

proof fn written_entries_end(d: Seq<u8>, p: int, es: Seq<Entry>)
    requires
        stands(d, p, entries_bytes(es)),
        forall|i: int| 0 <= i < es.len() ==> valid_entry(#[trigger] es[i]),
        d.len() <= usize::MAX,
    ensures
        entries_end(d, p, es.len()) == Ok::<int, Failure>(p + entries_bytes(es).len()),
    decreases es.len(),
{
    if es.len() > 0 {
        let w = entry_bytes(es[0]);
        let rest = es.drop_first();
        stands_split(d, p, w, entries_bytes(rest));
        written_entry_ends(d, p, es[0]);
        assert forall|i: int| 0 <= i < rest.len() implies valid_entry(#[trigger] rest[i]) by {
            assert(rest[i] == es[i + 1]);
        }
        written_entries_end(d, p + w.len(), rest);
    }
}

proof fn written_dims(d: Seq<u8>, p: int, dims: Seq<u64>)
    requires
        stands(d, p, dims_bytes(dims)),
    ensures
        dims_bytes(dims).len() == 8 * dims.len(),
        forall|i: int| 0 <= i < dims.len() ==> u64_at(d, p + 8 * i) == #[trigger] dims[i],
    decreases dims.len(),
{
    if dims.len() > 0 {
        pow256_values();
        let w = le_bytes(dims[0] as nat, 8);
        let rest = dims.drop_first();
        stands_split(d, p, w, dims_bytes(rest));
        stands_number(d, p, dims[0] as nat, 8);
        written_dims(d, p + 8, rest);
        assert forall|i: int| 0 <= i < dims.len() implies u64_at(d, p + 8 * i)
            == #[trigger] dims[i] by {
            if i > 0 {
                assert(rest[i - 1] == dims[i]);
                assert(p + 8 + 8 * (i - 1) == p + 8 * i);
            }
        }
    }
}

proof fn written_tensor(d: Seq<u8>, p: int, t: TensorInfo)
    requires
        stands(d, p, tensor_bytes(t)),
        valid_tensor(t),
    ensures
        tensor_at(d, p) == Ok::<(TensorInfo, int), Failure>((t, p + tensor_bytes(t).len())),
{
    pow256_values();
    let a = blob(encode_utf8(t.name));
    let b = le_bytes(t.dims.len(), 4);
    let c = dims_bytes(t.dims);
    let e = le_bytes(t.ty.id() as nat, 4);
    let f = le_bytes(t.offset as nat, 8);
    stands_split(d, p, a + b + c + e, f);
    stands_split(d, p, a + b + c, e);
    stands_split(d, p, a + b, c);
    stands_split(d, p, a, b);
    stands_text(d, p, t.name);
    stands_number(d, p + a.len(), t.dims.len(), 4);
    written_dims(d, p + a.len() + 4, t.dims);
    let q = p + a.len() + 4 + c.len();
    stands_number(d, q, t.ty.id() as nat, 4);
    stands_number(d, q + 4, t.offset as nat, 8);
    let start = p + a.len();
    assert(Seq::new(t.dims.len(), |i: int| u64_at(d, start + 4 + 8 * i)) =~= t.dims);
    type_ids_are_distinct(t.ty, choose|ty: TensorType| #[trigger] ty.id() == t.ty.id());
}

proof fn written_tensors(d: Seq<u8>, p: int, ts: Seq<TensorInfo>)
    requires
        stands(d, p, tensors_bytes(ts)),
        forall|i: int| 0 <= i < ts.len() ==> valid_tensor(#[trigger] ts[i]),
    ensures
        tensors_at(d, p, ts.len()) == Ok::<(Seq<TensorInfo>, int), Failure>(
            (ts, p + tensors_bytes(ts).len()),
        ),
    decreases ts.len(),
{
    if ts.len() > 0 {
        let w = tensor_bytes(ts[0]);
        let rest = ts.drop_first();
        stands_split(d, p, w, tensors_bytes(rest));
        written_tensor(d, p, ts[0]);
        assert forall|i: int| 0 <= i < rest.len() implies valid_tensor(#[trigger] rest[i]) by {
            assert(rest[i] == ts[i + 1]);
        }
        written_tensors(d, p + w.len(), rest);
        assert(seq![ts[0]] + rest =~= ts);
    } else {
        assert(ts =~= Seq::empty());
    }
}

proof fn written_header(version: u32, es: Seq<Entry>, ts: Seq<TensorInfo>, rest: Seq<u8>)
    requires
        writable_head(version, es, ts),
    ensures
        ({
            let d = head_bytes(version, es, ts) + rest;
            &&& d.len() >= HEADER_BYTES
            &&& u32_at(d, 0) == GGUF_MAGIC
            &&& u32_at(d, 4) == version
            &&& u64_at(d, 8) == ts.len()
            &&& u64_at(d, 16) == es.len()
            &&& stands(d, 24, entries_bytes(es))
            &&& stands(d, 24int + entries_bytes(es).len(), tensors_bytes(ts))
            &&& head_bytes(version, es, ts).len() == 24 + entries_bytes(es).len() + tensors_bytes(
                ts,
            ).len()
        }),
{
    pow256_values();
    let h = head_bytes(version, es, ts);
    let d = h + rest;
    let a = le_bytes(GGUF_MAGIC as nat, 4);
    let b = le_bytes(version as nat, 4);
    let c = le_bytes(ts.len(), 8);
    let e = le_bytes(es.len(), 8);
    assert(stands(d, 0, h));
    stands_split(d, 0, a + b + c + e + entries_bytes(es), tensors_bytes(ts));
    stands_split(d, 0, a + b + c + e, entries_bytes(es));
    stands_split(d, 0, a + b + c, e);
    stands_split(d, 0, a + b, c);
    stands_split(d, 0, a, b);
    stands_number(d, 0, GGUF_MAGIC as nat, 4);
    stands_number(d, 4, version as nat, 4);
    stands_number(d, 8, ts.len(), 8);
    stands_number(d, 16, es.len(), 8);
}

/// Parsing gives back the tensor descriptions that were written, in order, whatever the metadata
/// entries are and whatever bytes follow the descriptions. The data begins at the first multiple
/// of 32 bytes that is not before the end of the descriptions.
pub proof fn anything_may_follow_the_descriptions(
    version: u32,
    es: Seq<Entry>,
    ts: Seq<TensorInfo>,
    rest: Seq<u8>,
)
    requires
        writable_head(version, es, ts),
        (head_bytes(version, es, ts) + rest).len() <= usize::MAX,
        head_bytes(version, es, ts).len() + 31 <= u64::MAX,
    ensures
        ({
            let head = head_bytes(version, es, ts);
            &&& layout(head + rest) matches Ok(l) && {
                &&& l.tensors == ts
                &&& l.n_kv == es.len()
                &&& l.kv_end == HEADER_BYTES + entries_bytes(es).len()
                &&& l.data_offset == align32(head.len() as int)
                &&& l.data_offset % 32 == 0
                &&& head.len() <= l.data_offset < head.len() + 32
            }
        }),
{
    let d = head_bytes(version, es, ts) + rest;
    written_header(version, es, ts, rest);
    written_entries_end(d, 24, es);
    let kv_end = 24int + entries_bytes(es).len();
    written_tensors(d, kv_end, ts);
    layout_of_parts(d, version, es.len(), ts, kv_end, kv_end + tensors_bytes(ts).len());
}

/// The same of a file that was parsed from such bytes: its descriptions, the number and the place
/// of its entries, and where its data begins. All of its metadata lies within it.
pub proof fn parsed_files_hold_what_was_written(
    f: GgufFile,
    version: u32,
    es: Seq<Entry>,
    ts: Seq<TensorInfo>,
    rest: Seq<u8>,
)
    requires
        f.wf(),
        f.data@ == head_bytes(version, es, ts) + rest,
        writable_head(version, es, ts),
    ensures
        infos(f.tensors@) == ts,
        f.n_kv == es.len(),
        f.kv_section_start == HEADER_BYTES,
        f.kv_section_end == HEADER_BYTES + entries_bytes(es).len(),
        f.data_offset % 32 == 0,
        head_bytes(version, es, ts).len() <= f.data_offset < head_bytes(version, es, ts).len() + 32,
        f.metadata_complete(),
{
    let d = f.data@;
    assert(f.data@.len() == f.data.len());
    written_header(version, es, ts, rest);
    written_entries_end(d, 24, es);
    let kv_end = 24int + entries_bytes(es).len();
    written_tensors(d, kv_end, ts);
}

/// Parsing a written file gives back its tensor descriptions, in order, and finds the data
/// that was written, at a multiple of 32 bytes.
pub proof fn parse_gives_back_what_was_written(
    version: u32,
    es: Seq<Entry>,
    ts: Seq<TensorInfo>,
    data: Seq<u8>,
)
    requires
        writable(version, es, ts, data),
    ensures
        ({
            let d = file_bytes(version, es, ts, data);
            &&& layout(d) matches Ok(l) && {
                &&& l.tensors == ts
                &&& l.n_kv == es.len()
                &&& l.kv_end <= d.len()
                &&& l.data_offset % 32 == 0
                &&& d.subrange(l.data_offset, d.len() as int) == data
            }
        }),
{
    let d = file_bytes(version, es, ts, data);
    let head = head_bytes(version, es, ts);
    let pad = Seq::new((align32(head.len() as int) - head.len()) as nat, |i: int| 0u8);
    assert(d =~= head + (pad + data));
    anything_may_follow_the_descriptions(version, es, ts, pad + data);
    written_header(version, es, ts, pad + data);
    data_follows_padding(head, data);
}

/// Data after a padded head is found at the end of the padding.
proof fn data_follows_padding(head: Seq<u8>, data: Seq<u8>)
    ensures
        ({
            let pad = Seq::new((align32(head.len() as int) - head.len()) as nat, |i: int| 0u8);
            let d = head + pad + data;
            &&& align32(head.len() as int) % 32 == 0
            &&& align32(head.len() as int) <= d.len()
            &&& head.len() <= d.len()
            &&& d.subrange(align32(head.len() as int), d.len() as int) == data
        }),
{
    let pad = Seq::new((align32(head.len() as int) - head.len()) as nat, |i: int| 0u8);
    let d = head + pad + data;
    assert(d.subrange(align32(head.len() as int), d.len() as int) =~= data);
}

proof fn layout_of_parts(
    d: Seq<u8>,
    version: u32,
    n_kv: nat,
    ts: Seq<TensorInfo>,
    kv_end: int,
    end: int,
)
    requires
        d.len() >= HEADER_BYTES,
        u32_at(d, 0) == GGUF_MAGIC,
        u32_at(d, 4) == version,
        version == 2 || version == 3,
        u64_at(d, 8) == ts.len(),
        u64_at(d, 16) == n_kv,
        entries_end(d, HEADER_BYTES as int, n_kv) == Ok::<int, Failure>(kv_end),
        tensors_at(d, kv_end, ts.len()) == Ok::<(Seq<TensorInfo>, int), Failure>((ts, end)),
        end + 31 <= u64::MAX,
    ensures
        layout(d) == Ok::<Layout, Failure>(
            Layout { tensors: ts, data_offset: align32(end), n_kv, kv_end },
        ),
{
}

/// The entry `i` is the first with its key and type.
pub open spec fn first_of_its_kind(es: Seq<Entry>, i: int) -> bool {
    &&& 0 <= i < es.len()
    &&& forall|j: int|
        0 <= j < i ==> !((#[trigger] es[j]).key == es[i].key && type_of(es[j].value) == type_of(
            es[i].value,
        ))
}

proof fn written_entry_is_found(d: Seq<u8>, p: int, es: Seq<Entry>, i: int)
    requires
        stands(d, p, entries_bytes(es)),
        forall|j: int| 0 <= j < es.len() ==> valid_entry(#[trigger] es[j]),
        d.len() <= usize::MAX,
        first_of_its_kind(es, i),
    ensures
        find_value(d, p, es.len(), es[i].key, type_of(es[i].value)) matches Some(at) && stands(
            d,
            at,
            value_bytes(es[i].value),
        ),
    decreases es.len(),
{
    let w = entry_bytes(es[0]);
    let rest = es.drop_first();
    stands_split(d, p, w, entries_bytes(rest));
    written_entry_ends(d, p, es[0]);
    if i > 0 {
        assert(!(es[0].key == es[i].key && type_of(es[0].value) == type_of(es[i].value)));
        assert forall|j: int| 0 <= j < rest.len() implies valid_entry(#[trigger] rest[j]) by {
            assert(rest[j] == es[j + 1]);
        }
        assert(rest[i - 1] == es[i]);
        assert forall|j: int| 0 <= j < i - 1 implies !((#[trigger] rest[j]).key == rest[i - 1].key
            && type_of(rest[j].value) == type_of(rest[i - 1].value)) by {
            assert(rest[j] == es[j + 1]);
        }
        written_entry_is_found(d, p + w.len(), rest, i - 1);
    }
}

/// The first entry of a written file with a given key and type is found, whatever follows the
/// descriptions, and where it is found its value stands.
pub proof fn metadata_is_found(
    version: u32,
    es: Seq<Entry>,
    ts: Seq<TensorInfo>,
    rest: Seq<u8>,
    i: int,
)
    requires
        writable_head(version, es, ts),
        (head_bytes(version, es, ts) + rest).len() <= usize::MAX,
        first_of_its_kind(es, i),
    ensures
        ({
            let d = head_bytes(version, es, ts) + rest;
            find_value(
                d,
                HEADER_BYTES as int,
                es.len(),
                es[i].key,
                type_of(es[i].value),
            ) matches Some(
                at,
            ) && stands(d, at, value_bytes(es[i].value))
        }),
{
    written_header(version, es, ts, rest);
    written_entry_is_found(head_bytes(version, es, ts) + rest, 24, es, i);
}

/// A 32-bit number that was written is read back.
pub proof fn number_reads_back(d: Seq<u8>, at: int, v: u32)
    requires
        stands(d, at, value_bytes(Value::Scalar { vtype: KV_U32, bytes: le_bytes(v as nat, 4) })),
    ensures
        u32_at(d, at) == v,
{
    pow256_values();
    stands_number(d, at, v as nat, 4);
}

/// A list of texts as an array value.
pub open spec fn text_items(texts: Seq<Seq<char>>) -> Seq<Value> {
    texts.map_values(|s: Seq<char>| Value::Text(encode_utf8(s)))
}

proof fn written_texts(d: Seq<u8>, p: int, texts: Seq<Seq<char>>, i: int)
    requires
        stands(d, p, items_bytes(text_items(texts))),
        forall|j: int| 0 <= j < texts.len() ==> encode_utf8(#[trigger] texts[j]).len() < pow256(8),
        0 <= i < texts.len(),
    ensures
        string_or_empty(d, string_start(d, p, i as nat)) == texts[i],
    decreases i,
{
    let items = text_items(texts);
    let rest = texts.drop_first();
    assert(items.drop_first() =~= text_items(rest));
    assert(items[0] == Value::Text(encode_utf8(texts[0])));
    let w = blob(encode_utf8(texts[0]));
    assert(value_bytes(items[0]) == w);
    stands_split(d, p, w, items_bytes(text_items(rest)));
    stands_blob(d, p, encode_utf8(texts[0]));
    if i == 0 {
        vstd::utf8::encode_utf8_valid_utf8(texts[0]);
        vstd::utf8::encode_utf8_decode_utf8(texts[0]);
    } else {
        assert forall|j: int| 0 <= j < rest.len() implies encode_utf8(#[trigger] rest[j]).len()
            < pow256(8) by {
            assert(rest[j] == texts[j + 1]);
        }
        written_texts(d, p + w.len(), rest, i - 1);
        string_start_shift(d, p, i as nat);
    }
}

/// The string after the first `i` of a run is found from the second one on as well.
proof fn string_start_shift(d: Seq<u8>, p: int, i: nat)
    requires
        i > 0,
    ensures
        string_start(d, p, i) == string_start(d, p + 8 + u64_at(d, p), (i - 1) as nat),
    decreases i,
{
    if i > 1 {
        string_start_shift(d, p, (i - 1) as nat);
    } else {
        assert(string_start(d, p, 0) == p);
    }
}

/// An array of texts that was written is read back.
pub proof fn texts_read_back(d: Seq<u8>, at: int, texts: Seq<Seq<char>>)
    requires
        stands(d, at, value_bytes(Value::Array { elem: KV_STRING, items: text_items(texts) })),
        valid_value(Value::Array { elem: KV_STRING, items: text_items(texts) }),
    ensures
        string_array(d, at) == texts,
{
    pow256_values();
    let items = text_items(texts);
    let a = le_bytes(KV_STRING as nat, 4);
    let b = le_bytes(items.len(), 8);
    stands_split(d, at, a + b, items_bytes(items));
    stands_split(d, at, a, b);
    stands_number(d, at, KV_STRING as nat, 4);
    stands_number(d, at + 4, items.len(), 8);
    assert forall|j: int| 0 <= j < texts.len() implies encode_utf8(#[trigger] texts[j]).len()
        < pow256(8) by {
        assert(valid_value(items[j]));
    }
    assert forall|i: int| 0 <= i < texts.len() implies #[trigger] string_array(d, at)[i]
        == texts[i] by {
        written_texts(d, at + 12, texts, i);
    }
    assert(string_array(d, at) =~= texts);
}

/// The bit pattern of a signed number.
pub open spec fn pattern32(v: i32) -> nat {
    if v >= 0 {
        v as nat
    } else {
        (v + 0x1_0000_0000) as nat
    }
}

/// A list of signed numbers as an array value.
pub open spec fn number_items(vs: Seq<i32>) -> Seq<Value> {
    vs.map_values(
        |v: i32| Value::Scalar { vtype: KV_I32, bytes: le_bytes(pattern32(v), 4) },
    )
}

proof fn written_numbers(d: Seq<u8>, p: int, vs: Seq<i32>, i: int)
    requires
        stands(d, p, items_bytes(number_items(vs))),
        0 <= i < vs.len(),
    ensures
        crate::bytes::signed32(le_nat(d, p + 4 * i, 4)) == vs[i],
    decreases i,
{
    pow256_values();
    let items = number_items(vs);
    let rest = vs.drop_first();
    assert(items.drop_first() =~= number_items(rest));
    let w = le_bytes(pattern32(vs[0]), 4);
    assert(items[0] == Value::Scalar { vtype: KV_I32, bytes: w });
    assert(value_bytes(items[0]) == w);
    stands_split(d, p, w, items_bytes(number_items(rest)));
    stands_number(d, p, pattern32(vs[0]), 4);
    if i > 0 {
        written_numbers(d, p + 4, rest, i - 1);
        assert(p + 4 + 4 * (i - 1) == p + 4 * i);
    }
}

/// An array of signed 32-bit numbers that was written is read back.
pub proof fn numbers_read_back(d: Seq<u8>, at: int, vs: Seq<i32>)
    requires
        stands(d, at, value_bytes(Value::Array { elem: KV_I32, items: number_items(vs) })),
        vs.len() < pow256(8),
    ensures
        i32_array(d, at) == vs,
{
    pow256_values();
    let items = number_items(vs);
    let a = le_bytes(KV_I32 as nat, 4);
    let b = le_bytes(items.len(), 8);
    stands_split(d, at, a + b, items_bytes(items));
    stands_split(d, at, a, b);
    stands_number(d, at, KV_I32 as nat, 4);
    stands_number(d, at + 4, items.len(), 8);
    assert forall|i: int| 0 <= i < vs.len() implies #[trigger] i32_array(d, at)[i] == vs[i] by {
        written_numbers(d, at + 12, vs, i);
    }
    assert(i32_array(d, at) =~= vs);
}

/// A file that has tensors holds all of its metadata.
pub proof fn files_with_tensors_have_complete_metadata(f: GgufFile)
    requires
        f.wf(),
        f.tensors@.len() > 0,
    ensures
        f.metadata_complete(),
{
    let d = f.data@;
    let n = u64_at(d, 8) as nat;
    let l = layout(d)->Ok_0;
    assert(infos(f.tensors@).len() == f.tensors@.len());
    if n == 0 {
        assert(l.tensors.len() == 0);
    }
    assert(tensor_at(d, l.kv_end) is Ok);
    assert(string_fits(d, l.kv_end));
    assert(f.data@.len() == f.data.len());
}

} // verus!
