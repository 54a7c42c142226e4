//! Read-only parser for GGUF weight files, versions 2 and 3.
//!
//! A file is a 24-byte header, a list of metadata entries, a list of tensor
//! descriptions, padding to a multiple of 32 bytes, and the tensor data. The whole file
//! is one byte slice; tensors are slices into it.
use vstd::prelude::*;
use vstd::slice::slice_subrange;
use vstd::utf8::{decode_utf8, valid_utf8};

use crate::bytes::{i32_le, le_nat, signed32, u32_le, u64_le};
use crate::model::{product, TensorInfo, TensorMeta, TensorType};
use crate::text::utf8_string;

verus! {

/// The letters `GGUF`, read as a little-endian number.
pub const GGUF_MAGIC: u32 = 0x46554747;

/// Bytes before the first metadata entry.
pub const HEADER_BYTES: usize = 24;

/// Metadata type numbers that the readers look for.
pub const KV_U32: u32 = 4;

pub const KV_I32: u32 = 5;

pub const KV_STRING: u32 = 8;

pub const KV_ARRAY: u32 = 9;

/// Why a file was not accepted.
#[derive(Debug)]
pub enum GgufError {
    /// A field lies past the end of the file, or past what can be addressed.
    Truncated,
    BadMagic(u32),
    UnsupportedVersion(u32),
    InvalidUtf8,
    UnknownMetadataType(u32),
    UnknownTensorType { ty: u32, name: String },
}

/// What a `GgufError` says.
pub enum Failure {
    Truncated,
    BadMagic(u32),
    UnsupportedVersion(u32),
    InvalidUtf8,
    UnknownMetadataType(u32),
    UnknownTensorType { ty: u32, name: Seq<char> },
}

impl View for GgufError {
    type V = Failure;

    open spec fn view(&self) -> Failure {
        match *self {
            GgufError::Truncated => Failure::Truncated,
            GgufError::BadMagic(m) => Failure::BadMagic(m),
            GgufError::UnsupportedVersion(v) => Failure::UnsupportedVersion(v),
            GgufError::InvalidUtf8 => Failure::InvalidUtf8,
            GgufError::UnknownMetadataType(t) => Failure::UnknownMetadataType(t),
            GgufError::UnknownTensorType { ty, name } => Failure::UnknownTensorType {
                ty,
                name: name@,
            },
        }
    }
}

/// The 32-bit number at `at`.
pub open spec fn u32_at(d: Seq<u8>, at: int) -> u32 {
    le_nat(d, at, 4) as u32
}

/// The 64-bit number at `at`.
pub open spec fn u64_at(d: Seq<u8>, at: int) -> u64 {
    le_nat(d, at, 8) as u64
}

/// The bytes of the string at `at`: a 64-bit length, then as many bytes.
pub open spec fn string_bytes(d: Seq<u8>, at: int) -> Seq<u8> {
    d.subrange(at + 8, at + 8 + u64_at(d, at))
}

/// The string at `at` lies within the file.
pub open spec fn string_fits(d: Seq<u8>, at: int) -> bool {
    at + 8 <= d.len() && at + 8 + u64_at(d, at) <= d.len()
}

/// The string at `at`, and where it ends.
pub open spec fn string_at(d: Seq<u8>, at: int) -> Result<(Seq<char>, int), Failure> {
    if !string_fits(d, at) {
        Err(Failure::Truncated)
    } else if !valid_utf8(string_bytes(d, at)) {
        Err(Failure::InvalidUtf8)
    } else {
        Ok((decode_utf8(string_bytes(d, at)), at + 8 + u64_at(d, at)))
    }
}

/// The string at `at`, or the empty string where its bytes are not UTF-8.
pub open spec fn string_or_empty(d: Seq<u8>, at: int) -> Seq<char> {
    if valid_utf8(string_bytes(d, at)) {
        decode_utf8(string_bytes(d, at))
    } else {
        Seq::empty()
    }
}

/// Bytes of a metadata value of fixed size; `None` for strings, arrays and unknown types.
pub open spec fn scalar_bytes(vtype: u32) -> Option<int> {
    match vtype {
        0 | 1 | 7 => Some(1),
        2 | 3 => Some(2),
        4 | 5 | 6 => Some(4),
        10 | 11 | 12 => Some(8),
        _ => None,
    }
}

/// `at`, if it can be addressed.
pub open spec fn address(at: int) -> Result<int, Failure> {
    if at <= usize::MAX {
        Ok(at)
    } else {
        Err(Failure::Truncated)
    }
}

/// Bytes left from `at` on.
pub open spec fn bytes_left(d: Seq<u8>, at: int) -> int {
    if at <= d.len() {
        d.len() - at
    } else {
        0
    }
}

/// Where the metadata value of type `vtype` at `at` ends.
///
/// The value itself is not looked at: only the lengths of strings and the headers of
/// arrays have to lie within the file.
pub open spec fn value_end(d: Seq<u8>, at: int, vtype: u32) -> Result<int, Failure>
    decreases bytes_left(d, at), 0int,
{
    match scalar_bytes(vtype) {
        Some(n) => address(at + n),
        None => if vtype == KV_STRING {
            if at + 8 > d.len() {
                Err(Failure::Truncated)
            } else {
                address(at + 8 + u64_at(d, at))
            }
        } else if vtype == KV_ARRAY {
            if at + 12 > d.len() {
                Err(Failure::Truncated)
            } else {
                items_end(d, at + 12, u32_at(d, at), u64_at(d, at + 4) as int)
            }
        } else {
            Err(Failure::UnknownMetadataType(vtype))
        },
    }
}

/// Where the last of `count` values of type `vtype` that start at `at` ends.
pub open spec fn items_end(d: Seq<u8>, at: int, vtype: u32, count: int) -> Result<int, Failure>
    decreases bytes_left(d, at), count,
{
    if count <= 0 {
        Ok(at)
    } else {
        match value_end(d, at, vtype) {
            // a value takes at least one byte
            Ok(next) => if next > at {
                items_end(d, next, vtype, count - 1)
            } else {
                Err(Failure::Truncated)
            },
            Err(e) => Err(e),
        }
    }
}

/// Where the metadata entry at `at` ends: a key, a type number, a value.
pub open spec fn entry_end(d: Seq<u8>, at: int) -> Result<int, Failure> {
    match string_at(d, at) {
        Err(e) => Err(e),
        Ok((_, next)) => if next + 4 > d.len() {
            Err(Failure::Truncated)
        } else {
            value_end(d, next + 4, u32_at(d, next))
        },
    }
}

/// Where the last of `n` metadata entries that start at `at` ends.
pub open spec fn entries_end(d: Seq<u8>, at: int, n: nat) -> Result<int, Failure>
    decreases n,
{
    if n == 0 {
        Ok(at)
    } else {
        match entry_end(d, at) {
            Err(e) => Err(e),
            Ok(next) => entries_end(d, next, (n - 1) as nat),
        }
    }
}

/// Where the value of the first of `n` entries from `at` on stands whose key is `key` and
/// whose type is `vtype`.
pub open spec fn find_value(d: Seq<u8>, at: int, n: nat, key: Seq<char>, vtype: u32) -> Option<int>
    decreases n,
{
    if n == 0 {
        None
    } else {
        let next = string_at(d, at)->Ok_0.1;
        if string_at(d, at)->Ok_0.0 == key && u32_at(d, next) == vtype {
            Some(next + 4)
        } else {
            find_value(d, entry_end(d, at)->Ok_0, (n - 1) as nat, key, vtype)
        }
    }
}

/// The tensor description at `at`, and where it ends: name, dimensions, type, offset.
pub open spec fn tensor_at(d: Seq<u8>, at: int) -> Result<(TensorInfo, int), Failure> {
    match string_at(d, at) {
        Err(e) => Err(e),
        Ok((name, p)) => {
            let n = u32_at(d, p);
            let q = p + 4 + 8 * n;
            if q + 12 > d.len() {
                Err(Failure::Truncated)
            } else {
                let id = u32_at(d, q);
                let dims = Seq::new(n as nat, |i: int| u64_at(d, p + 4 + 8 * i));
                if exists|ty: TensorType| #[trigger] ty.id() == id {
                    let ty = choose|ty: TensorType| #[trigger] ty.id() == id;
                    Ok((TensorInfo { name, ty, dims, offset: u64_at(d, q + 4) }, q + 12))
                } else {
                    Err(Failure::UnknownTensorType { ty: id, name })
                }
            }
        },
    }
}

/// The `n` tensor descriptions from `at` on, and where they end.
pub open spec fn tensors_at(d: Seq<u8>, at: int, n: nat) -> Result<(Seq<TensorInfo>, int), Failure>
    decreases n,
{
    if n == 0 {
        Ok((Seq::empty(), at))
    } else {
        match tensor_at(d, at) {
            Err(e) => Err(e),
            Ok((t, next)) => put_before(seq![t], tensors_at(d, next, (n - 1) as nat)),
        }
    }
}

/// A list of descriptions with `first` in front of it.
pub open spec fn put_before(
    first: Seq<TensorInfo>,
    rest: Result<(Seq<TensorInfo>, int), Failure>,
) -> Result<(Seq<TensorInfo>, int), Failure> {
    match rest {
        Err(e) => Err(e),
        Ok((ts, end)) => Ok((first + ts, end)),
    }
}

/// The next multiple of 32.
pub open spec fn align32(at: int) -> int {
    (at + 31) / 32 * 32
}

/// What a file holds besides its tensor data.
pub struct Layout {
    pub tensors: Seq<TensorInfo>,
    pub data_offset: int,
    pub n_kv: nat,
    pub kv_end: int,
}

/// The layout of the file `d`, or why it is not accepted.
pub open spec fn layout(d: Seq<u8>) -> Result<Layout, Failure> {
    if d.len() < 4 {
        Err(Failure::Truncated)
    } else if u32_at(d, 0) != GGUF_MAGIC {
        Err(Failure::BadMagic(u32_at(d, 0)))
    } else if d.len() < 8 {
        Err(Failure::Truncated)
    } else if u32_at(d, 4) < 2 || u32_at(d, 4) > 3 {
        Err(Failure::UnsupportedVersion(u32_at(d, 4)))
    } else if d.len() < HEADER_BYTES {
        Err(Failure::Truncated)
    } else {
        match entries_end(d, HEADER_BYTES as int, u64_at(d, 16) as nat) {
            Err(e) => Err(e),
            Ok(kv_end) => match tensors_at(d, kv_end, u64_at(d, 8) as nat) {
                Err(e) => Err(e),
                Ok((tensors, end)) => if end + 31 > u64::MAX {
                    Err(Failure::Truncated)
                } else {
                    Ok(
                        Layout {
                            tensors,
                            data_offset: align32(end),
                            n_kv: u64_at(d, 16) as nat,
                            kv_end,
                        },
                    )
                },
            },
        }
    }
}

/// The first description with the given name.
pub open spec fn first_named(tensors: Seq<TensorInfo>, name: Seq<char>) -> Option<TensorInfo>
    decreases tensors.len(),
{
    if tensors.len() == 0 {
        None
    } else if tensors[0].name == name {
        Some(tensors[0])
    } else {
        first_named(tensors.drop_first(), name)
    }
}

/// The descriptions of a list of tensors.
pub open spec fn infos(tensors: Seq<TensorMeta>) -> Seq<TensorInfo> {
    tensors.map_values(|t: TensorMeta| t@)
}

/// Where the string with index `i` stands in a run of strings that starts at `at`.
pub open spec fn string_start(d: Seq<u8>, at: int, i: nat) -> int
    decreases i,
{
    if i == 0 {
        at
    } else {
        let p = string_start(d, at, (i - 1) as nat);
        p + 8 + u64_at(d, p)
    }
}

/// A value takes at least one byte.
pub proof fn value_takes_space(d: Seq<u8>, at: int, vtype: u32)
    requires
        value_end(d, at, vtype) is Ok,
    ensures
        at < value_end(d, at, vtype)->Ok_0,
    decreases bytes_left(d, at), 0int,
{
    if scalar_bytes(vtype) is None && vtype == KV_ARRAY {
        items_take_space(d, at + 12, u32_at(d, at), u64_at(d, at + 4) as int);
    }
}

/// A run of values does not end before it starts.
pub proof fn items_take_space(d: Seq<u8>, at: int, vtype: u32, count: int)
    requires
        items_end(d, at, vtype, count) is Ok,
    ensures
        at <= items_end(d, at, vtype, count)->Ok_0,
    decreases bytes_left(d, at), count,
{
    if count > 0 {
        value_takes_space(d, at, vtype);
        items_take_space(d, value_end(d, at, vtype)->Ok_0, vtype, count - 1);
    }
}

/// `at + n` is within a slice of length `len`.
fn fits(at: usize, n: usize, len: usize) -> (r: bool)
    ensures
        r == (at + n <= len),
{
    at <= len && len - at >= n
}

/// Reads the 32-bit number at the cursor.
pub fn kv_read_u32(data: &[u8], cur: &mut usize) -> (r: u32)
    requires
        *old(cur) + 4 <= data.len(),
    ensures
        r == u32_at(data@, *old(cur) as int),
        *final(cur) == *old(cur) + 4,
{
    let v: u32 = u32_le(data, *cur);
    *cur = *cur + 4;
    v
}

/// Reads the 64-bit number at the cursor.
pub fn kv_read_u64(data: &[u8], cur: &mut usize) -> (r: u64)
    requires
        *old(cur) + 8 <= data.len(),
    ensures
        r == u64_at(data@, *old(cur) as int),
        *final(cur) == *old(cur) + 8,
{
    let v: u64 = u64_le(data, *cur);
    *cur = *cur + 8;
    v
}

/// Reads the string at the cursor; the empty string stands for bytes that are not UTF-8.
pub fn kv_read_str(data: &[u8], cur: &mut usize) -> (r: String)
    requires
        string_fits(data@, *old(cur) as int),
    ensures
        r@ == string_or_empty(data@, *old(cur) as int),
        *final(cur) == *old(cur) + 8 + u64_at(data@, *old(cur) as int),
{
    assert(data@.len() == data.len());
    let len: usize = kv_read_u64(data, cur) as usize;
    let bytes: &[u8] = slice_subrange(data, *cur, *cur + len);
    *cur = *cur + len;
    match utf8_string(bytes) {
        Some(s) => s,
        None => String::new(),
    }
}

/// Reads the string at `at`, and gives where it ends.
fn read_str(data: &[u8], at: usize) -> (r: Result<(String, usize), GgufError>)
    ensures
        match string_at(data@, at as int) {
            Ok((s, end)) => r matches Ok((rs, rend)) && rs@ == s && rend == end,
            Err(e) => r matches Err(re) && re@ == e,
        },
{
    let len: usize = data.len();
    if !fits(at, 8, len) {
        return Err(GgufError::Truncated);
    }
    let n: u64 = u64_le(data, at);
    if n > (len - at - 8) as u64 {
        return Err(GgufError::Truncated);
    }
    let end: usize = at + 8 + n as usize;
    match utf8_string(slice_subrange(data, at + 8, end)) {
        Some(s) => Ok((s, end)),
        None => Err(GgufError::InvalidUtf8),
    }
}

/// Skips a metadata value of the given type: where it ends.
pub fn skip_value(data: &[u8], at: usize, vtype: u32) -> (r: Result<usize, GgufError>)
    ensures
        match value_end(data@, at as int, vtype) {
            Ok(end) => r matches Ok(rend) && rend == end,
            Err(e) => r matches Err(re) && re@ == e,
        },
    decreases bytes_left(data@, at as int),
{
    let len: usize = data.len();
    let width: u64 = match vtype {
        0 | 1 | 7 => 1,
        2 | 3 => 2,
        4 | 5 | 6 => 4,
        10 | 11 | 12 => 8,
        8 => {
            if !fits(at, 8, len) {
                return Err(GgufError::Truncated);
            }
            let n: u64 = u64_le(data, at);
            if n > u64::MAX - 8 {
                return Err(GgufError::Truncated);
            }
            8 + n
        },
        9 => {
            if !fits(at, 12, len) {
                return Err(GgufError::Truncated);
            }
            let elem_type: u32 = u32_le(data, at);
            let count: u64 = u64_le(data, at + 4);
            let mut cur: usize = at + 12;
            let mut i: u64 = 0;
            while i < count
                invariant
                    i <= count,
                    at + 12 <= len,
                    len == data@.len(),
                    at + 12 <= cur,
                    items_end(data@, at + 12, elem_type, count as int) == items_end(
                        data@,
                        cur as int,
                        elem_type,
                        count - i,
                    ),
                    value_end(data@, at as int, vtype) == items_end(
                        data@,
                        at + 12,
                        elem_type,
                        count as int,
                    ),
                decreases count - i,
            {
                match skip_value(data, cur, elem_type) {
                    Ok(next) => {
                        proof {
                            value_takes_space(data@, cur as int, elem_type);
                        }
                        cur = next;
                    },
                    Err(e) => {
                        return Err(e);
                    },
                }
                i = i + 1;
            }
            return Ok(cur);
        },
        t => {
            return Err(GgufError::UnknownMetadataType(t));
        },
    };
    if width > (usize::MAX - at) as u64 {
        Err(GgufError::Truncated)
    } else {
        Ok(at + width as usize)
    }
}

/// Skips the metadata entry at `at`: where it ends.
fn skip_entry(data: &[u8], at: usize) -> (r: Result<usize, GgufError>)
    ensures
        match entry_end(data@, at as int) {
            Ok(end) => r matches Ok(rend) && rend == end,
            Err(e) => r matches Err(re) && re@ == e,
        },
{
    match read_str(data, at) {
        Err(e) => Err(e),
        Ok((_, next)) => {
            if !fits(next, 4, data.len()) {
                return Err(GgufError::Truncated);
            }
            let vtype: u32 = u32_le(data, next);
            skip_value(data, next + 4, vtype)
        },
    }
}

/// Skips `n` metadata entries from `at` on: where the last one ends.
fn skip_entries(data: &[u8], at: usize, n: u64) -> (r: Result<usize, GgufError>)
    ensures
        match entries_end(data@, at as int, n as nat) {
            Ok(end) => r matches Ok(rend) && rend == end,
            Err(e) => r matches Err(re) && re@ == e,
        },
{
    let mut cur: usize = at;
    let mut i: u64 = 0;
    while i < n
        invariant
            i <= n,
            entries_end(data@, at as int, n as nat) == entries_end(
                data@,
                cur as int,
                (n - i) as nat,
            ),
        decreases n - i,
    {
        match skip_entry(data, cur) {
            Ok(next) => {
                cur = next;
            },
            Err(e) => {
                return Err(e);
            },
        }
        i = i + 1;
    }
    Ok(cur)
}

/// Reads the tensor description at `at`, and gives where it ends.
fn read_tensor(data: &[u8], at: usize) -> (r: Result<(TensorMeta, usize), GgufError>)
    ensures
        match tensor_at(data@, at as int) {
            Ok((t, end)) => r matches Ok((rt, rend)) && rt@ == t && rend == end,
            Err(e) => r matches Err(re) && re@ == e,
        },
{
    let len: usize = data.len();
    let (name, p) = match read_str(data, at) {
        Ok(x) => x,
        Err(e) => {
            return Err(e);
        },
    };
    if !fits(p, 16, len) {
        return Err(GgufError::Truncated);
    }
    let n: u32 = u32_le(data, p);
    if n as usize > (len - p - 16) / 8 {
        return Err(GgufError::Truncated);
    }
    let mut dims: Vec<u64> = Vec::new();
    let mut i: u32 = 0;
    while i < n
        invariant
            i <= n,
            p + 16 + 8 * n <= len,
            len == data@.len(),
            len == data.len(),
            dims@ =~= Seq::new(i as nat, |j: int| u64_at(data@, p + 4 + 8 * j)),
        decreases n - i,
    {
        dims.push(u64_le(data, p + 4 + 8 * (i as usize)));
        i = i + 1;
    }
    let q: usize = p + 4 + 8 * (n as usize);
    let id: u32 = u32_le(data, q);
    let offset: u64 = u64_le(data, q + 4);
    match TensorType::from_u32(id) {
        None => Err(GgufError::UnknownTensorType { ty: id, name }),
        Some(ty) => {
            proof {
                crate::model::type_ids_are_distinct(
                    ty,
                    choose|t: TensorType| #[trigger] t.id() == id,
                );
            }
            Ok((TensorMeta { name, ty, dims, offset }, q + 12))
        },
    }
}

/// Reads `n` tensor descriptions from `at` on, and gives where they end.
fn read_tensors(data: &[u8], at: usize, n: u64) -> (r: Result<(Vec<TensorMeta>, usize), GgufError>)
    ensures
        match tensors_at(data@, at as int, n as nat) {
            Ok((ts, end)) => r matches Ok((rts, rend)) && infos(rts@) == ts && rend == end,
            Err(e) => r matches Err(re) && re@ == e,
        },
{
    let mut cur: usize = at;
    let mut out: Vec<TensorMeta> = Vec::new();
    let mut i: u64 = 0;
    assert(put_before(infos(out@), tensors_at(data@, at as int, n as nat)) == tensors_at(
        data@,
        at as int,
        n as nat,
    )) by {
        if let Ok((ts, _)) = tensors_at(data@, at as int, n as nat) {
            assert(infos(out@) + ts =~= ts);
        }
    }
    while i < n
        invariant
            i <= n,
            tensors_at(data@, at as int, n as nat) == put_before(
                infos(out@),
                tensors_at(data@, cur as int, (n - i) as nat),
            ),
        decreases n - i,
    {
        match read_tensor(data, cur) {
            Ok((t, next)) => {
                proof {
                    if let Ok((ts, _)) = tensors_at(data@, next as int, (n - i - 1) as nat) {
                        assert(infos(out@) + (seq![t@] + ts) =~= infos(out@.push(t)) + ts);
                    }
                }
                out.push(t);
                cur = next;
            },
            Err(e) => {
                return Err(e);
            },
        }
        i = i + 1;
    }
    assert(infos(out@) + Seq::empty() =~= infos(out@));
    Ok((out, cur))
}

/// A parsed weight file.
pub struct GgufFile<'a> {
    /// The whole file.
    pub data: &'a [u8],
    pub tensors: Vec<TensorMeta>,
    /// Byte offset from the start of the file where tensor data begins.
    pub data_offset: u64,
    /// Byte offset of the first metadata entry.
    pub kv_section_start: usize,
    /// Byte offset of the end of the last metadata entry.
    pub kv_section_end: usize,
    /// Number of metadata entries.
    pub n_kv: usize,
}

impl<'a> GgufFile<'a> {
    /// The fields are what the file says.
    pub open spec fn wf(&self) -> bool {
        layout(self.data@) matches Ok(l) && {
            &&& infos(self.tensors@) == l.tensors
            &&& self.data_offset == l.data_offset
            &&& self.kv_section_start == HEADER_BYTES
            &&& self.kv_section_end == l.kv_end
            &&& self.n_kv == l.n_kv
        }
    }

    /// Parses a file held in memory.
    pub fn parse(data: &'a [u8]) -> (r: Result<Self, GgufError>)
        ensures
            match layout(data@) {
                Ok(_) => r matches Ok(f) && f.data == data && f.wf(),
                Err(e) => r matches Err(re) && re@ == e,
            },
    {
        let len: usize = data.len();
        if len < 4 {
            return Err(GgufError::Truncated);
        }
        let magic: u32 = u32_le(data, 0);
        if magic != GGUF_MAGIC {
            return Err(GgufError::BadMagic(magic));
        }
        if len < 8 {
            return Err(GgufError::Truncated);
        }
        let version: u32 = u32_le(data, 4);
        if version < 2 || version > 3 {
            return Err(GgufError::UnsupportedVersion(version));
        }
        if len < HEADER_BYTES {
            return Err(GgufError::Truncated);
        }
        let n_tensors: u64 = u64_le(data, 8);
        let n_kv: u64 = u64_le(data, 16);
        let kv_section_end: usize = match skip_entries(data, HEADER_BYTES, n_kv) {
            Ok(end) => end,
            Err(e) => {
                return Err(e);
            },
        };
        proof {
            entries_take_space(data@, HEADER_BYTES as int, n_kv as nat);
        }
        match read_tensors(data, kv_section_end, n_tensors) {
            Err(e) => Err(e),
            Ok((tensors, end)) => {
                if end as u64 > u64::MAX - 31 {
                    return Err(GgufError::Truncated);
                }
                let data_offset: u64 = (end as u64 + 31) / 32 * 32;
                Ok(
                    GgufFile {
                        data,
                        tensors,
                        data_offset,
                        kv_section_start: HEADER_BYTES,
                        kv_section_end,
                        n_kv: n_kv as usize,
                    },
                )
            },
        }
    }

    /// The bytes of a tensor's data.
    pub fn tensor_data(&self, t: &TensorMeta) -> (r: &'a [u8])
        requires
            t.size_fits(),
            self.data_offset + t.offset + t.ty.spec_byte_size(product(t.dims@)) <= self.data.len(),
        ensures
            r@ == self.data@.subrange(
                self.data_offset + t.offset,
                self.data_offset + t.offset + t.ty.spec_byte_size(product(t.dims@)),
            ),
    {
        let size: usize = t.byte_size();
        let start: usize = (self.data_offset + t.offset) as usize;
        slice_subrange(self.data, start, start + size)
    }

    /// Finds a tensor by name: the first one with that name.
    pub fn find(&self, name: &str) -> (r: Option<&TensorMeta>)
        ensures
            match r {
                Some(t) => first_named(infos(self.tensors@), name@) == Some(t@),
                None => first_named(infos(self.tensors@), name@) is None,
            },
    {
        let key: String = name.to_owned();
        let mut i: usize = 0;
        assert(infos(self.tensors@).skip(0) =~= infos(self.tensors@));
        while i < self.tensors.len()
            invariant
                i <= self.tensors.len(),
                key@ == name@,
                first_named(infos(self.tensors@), name@) == first_named(
                    infos(self.tensors@).skip(i as int),
                    name@,
                ),
            decreases self.tensors.len() - i,
        {
            let ghost rest = infos(self.tensors@).skip(i as int);
            assert(rest.drop_first() =~= infos(self.tensors@).skip(i + 1));
            assert(rest[0] == self.tensors@[i as int]@);
            if self.tensors[i].name == key {
                return Some(&self.tensors[i]);
            }
            i = i + 1;
        }
        None
    }
}

/// Each metadata entry takes at least thirteen bytes, most of them within the file.
proof fn entries_take_space(d: Seq<u8>, at: int, n: nat)
    requires
        entries_end(d, at, n) is Ok,
        at >= 0,
    ensures
        n == 0 || n <= d.len(),
        at <= entries_end(d, at, n)->Ok_0,
        n == 0 || at + n <= d.len(),
    decreases n,
{
    if n > 0 {
        let next = string_at(d, at)->Ok_0.1;
        value_takes_space(d, next + 4, u32_at(d, next));
        entries_take_space(d, entry_end(d, at)->Ok_0, (n - 1) as nat);
    }
}

/// The contents of a list of strings.
pub open spec fn texts(v: Seq<String>) -> Seq<Seq<char>> {
    v.map_values(|s: String| s@)
}

/// The array of strings at `at`; empty where the array holds another type.
pub open spec fn string_array(d: Seq<u8>, at: int) -> Seq<Seq<char>> {
    if u32_at(d, at) != KV_STRING {
        Seq::empty()
    } else {
        Seq::new(
            u64_at(d, at + 4) as nat,
            |i: int| string_or_empty(d, string_start(d, at + 12, i as nat)),
        )
    }
}

/// The array of signed 32-bit numbers at `at`; empty where the array holds another type.
pub open spec fn i32_array(d: Seq<u8>, at: int) -> Seq<i32> {
    if u32_at(d, at) != KV_I32 {
        Seq::empty()
    } else {
        Seq::new(
            u64_at(d, at + 4) as nat,
            |i: int| signed32(le_nat(d, at + 12 + 4 * i, 4)) as i32,
        )
    }
}

impl<'a> GgufFile<'a> {
    /// All metadata lies within the file. Only a file without tensors can be parsed where
    /// this does not hold.
    pub open spec fn metadata_complete(&self) -> bool {
        self.kv_section_end <= self.data.len()
    }

    /// Where the value of the first entry with the given key and type stands.
    pub open spec fn value_of(&self, key: Seq<char>, vtype: u32) -> Option<int> {
        find_value(self.data@, HEADER_BYTES as int, self.n_kv as nat, key, vtype)
    }

    /// The value of the first entry with the given key and type lies within the file. Only the
    /// last value of a file can be cut off: the search itself never leaves the file.
    pub open spec fn value_readable(&self, key: Seq<char>, vtype: u32) -> bool {
        self.value_of(key, vtype) matches Some(p) ==> value_end(self.data@, p, vtype)->Ok_0
            <= self.data.len()
    }

    /// The first array with the given key lies within the file, or holds another type.
    pub open spec fn array_readable(&self, key: Seq<char>, elem: u32) -> bool {
        self.value_of(key, KV_ARRAY) matches Some(p) ==> (u32_at(self.data@, p) == elem
            ==> value_end(self.data@, p, KV_ARRAY)->Ok_0 <= self.data.len())
    }

    /// Finds the value of the first entry with the given key and type.
    fn find_kv(&self, key: &str, vtype: u32) -> (r: Option<usize>)
        requires
            self.wf(),
        ensures
            match self.value_of(key@, vtype) {
                Some(p) => {
                    &&& r matches Some(at) && at == p
                    &&& value_end(self.data@, p, vtype) is Ok
                },
                None => r is None,
            },
    {
        let data: &[u8] = self.data;
        let wanted: String = key.to_owned();
        let mut cur: usize = self.kv_section_start;
        let mut i: usize = 0;
        while i < self.n_kv
            invariant
                i <= self.n_kv,
                data == self.data,
                wanted@ == key@,
                entries_end(data@, cur as int, (self.n_kv - i) as nat) is Ok,
                self.value_of(key@, vtype) == find_value(
                    data@,
                    cur as int,
                    (self.n_kv - i) as nat,
                    key@,
                    vtype,
                ),
            decreases self.n_kv - i,
        {
            let k: String = kv_read_str(data, &mut cur);
            let found: u32 = kv_read_u32(data, &mut cur);
            if k == wanted && found == vtype {
                return Some(cur);
            }
            match skip_value(data, cur, found) {
                Ok(next) => {
                    cur = next;
                },
                Err(_) => {
                    return None;
                },
            }
            i = i + 1;
        }
        None
    }

    /// Whether the value of the first entry with the given key and type lies within the file.
    pub fn can_read_value(&self, key: &str, vtype: u32) -> (r: bool)
        requires
            self.wf(),
        ensures
            r == self.value_readable(key@, vtype),
    {
        match self.find_kv(key, vtype) {
            Some(at) => match skip_value(self.data, at, vtype) {
                Ok(end) => end <= self.data.len(),
                Err(_) => true,
            },
            None => true,
        }
    }

    /// Whether the first array with the given key lies within the file, or holds another type.
    pub fn can_read_array(&self, key: &str, elem: u32) -> (r: bool)
        requires
            self.wf(),
        ensures
            r == self.array_readable(key@, elem),
    {
        match self.find_kv(key, KV_ARRAY) {
            Some(at) => u32_le(self.data, at) != elem || match skip_value(self.data, at, KV_ARRAY) {
                Ok(end) => end <= self.data.len(),
                Err(_) => true,
            },
            None => true,
        }
    }

    /// The 32-bit number of the first entry with the given key and that type, if there is one.
    pub fn read_kv_u32(&self, key: &str) -> (r: Option<u32>)
        requires
            self.wf(),
            self.value_readable(key@, KV_U32),
        ensures
            r == match self.value_of(key@, KV_U32) {
                Some(p) => Some(u32_at(self.data@, p)),
                None => None,
            },
    {
        match self.find_kv(key, KV_U32) {
            Some(at) => Some(u32_le(self.data, at)),
            None => None,
        }
    }

    /// The string of the first entry with the given key and that type, if there is one; a string
    /// that is not UTF-8 reads as the empty string.
    pub fn read_kv_string(&self, key: &str) -> (r: Option<String>)
        requires
            self.wf(),
            self.value_readable(key@, KV_STRING),
        ensures
            match self.value_of(key@, KV_STRING) {
                Some(p) => r matches Some(s) && s@ == string_or_empty(self.data@, p),
                None => r is None,
            },
    {
        match self.find_kv(key, KV_STRING) {
            Some(at) => {
                let mut cur: usize = at;
                Some(kv_read_str(self.data, &mut cur))
            },
            None => None,
        }
    }

    /// The strings of the first array entry with the given key. Empty where there is no such
    /// entry or it holds no strings; a string that is not UTF-8 reads as the empty string.
    pub fn read_kv_string_array(&self, key: &str) -> (r: Vec<String>)
        requires
            self.wf(),
            self.array_readable(key@, KV_STRING),
        ensures
            texts(r@) == match self.value_of(key@, KV_ARRAY) {
                Some(p) => string_array(self.data@, p),
                None => Seq::empty(),
            },
    {
        let data: &[u8] = self.data;
        let mut out: Vec<String> = Vec::new();
        if let Some(at) = self.find_kv(key, KV_ARRAY) {
            let elem_type: u32 = u32_le(data, at);
            if elem_type == KV_STRING {
                let count: u64 = u64_le(data, at + 4);
                let mut cur: usize = at + 12;
                let mut i: u64 = 0;
                while i < count
                    invariant
                        i <= count,
                        out@.len() == i,
                        cur == string_start(data@, at + 12, i as nat),
                        items_end(data@, cur as int, KV_STRING, count - i) is Ok,
                        items_end(data@, cur as int, KV_STRING, count - i)->Ok_0 <= data@.len(),
                        forall|j: int|
                            0 <= j < i ==> (#[trigger] out@[j])@ == string_or_empty(
                                data@,
                                string_start(data@, at + 12, j as nat),
                            ),
                    decreases count - i,
                {
                    proof {
                        let next = value_end(data@, cur as int, KV_STRING)->Ok_0;
                        items_take_space(data@, next, KV_STRING, count - i - 1);
                    }
                    out.push(kv_read_str(data, &mut cur));
                    i = i + 1;
                }
                assert(texts(out@) =~= string_array(data@, at as int));
            }
        }
        assert(out@.len() == 0 ==> texts(out@) =~= Seq::empty());
        out
    }

    /// The signed 32-bit numbers of the first array entry with the given key. Empty where there
    /// is no such entry or it holds another type.
    pub fn read_kv_i32_array(&self, key: &str) -> (r: Vec<i32>)
        requires
            self.wf(),
            self.array_readable(key@, KV_I32),
        ensures
            r@ == match self.value_of(key@, KV_ARRAY) {
                Some(p) => i32_array(self.data@, p),
                None => Seq::empty(),
            },
    {
        let data: &[u8] = self.data;
        let mut out: Vec<i32> = Vec::new();
        if let Some(at) = self.find_kv(key, KV_ARRAY) {
            let elem_type: u32 = u32_le(data, at);
            if elem_type == KV_I32 {
                let count: u64 = u64_le(data, at + 4);
                let mut cur: usize = at + 12;
                let mut i: u64 = 0;
                while i < count
                    invariant
                        i <= count,
                        out@.len() == i,
                        cur == at + 12 + 4 * i,
                        items_end(data@, cur as int, KV_I32, count - i) is Ok,
                        items_end(data@, cur as int, KV_I32, count - i)->Ok_0 <= data@.len(),
                        forall|j: int|
                            0 <= j < i ==> #[trigger] out@[j] == signed32(
                                le_nat(data@, at + 12 + 4 * j, 4),
                            ),
                    decreases count - i,
                {
                    proof {
                        assert(value_end(data@, cur as int, KV_I32) == address(cur + 4));
                        items_take_space(data@, cur + 4, KV_I32, count - i - 1);
                    }
                    assert(data@.len() == data.len());
                    out.push(i32_le(data, cur));
                    cur = cur + 4;
                    i = i + 1;
                }
                assert(out@ =~= i32_array(data@, at as int));
            }
        }
        out
    }
}

/// The value that a search finds ends no later than the entries.
proof fn found_value_ends(d: Seq<u8>, at: int, n: nat, key: Seq<char>, vtype: u32)
    requires
        entries_end(d, at, n) is Ok,
        find_value(d, at, n, key, vtype) is Some,
        at >= 0,
    ensures
        value_end(d, find_value(d, at, n, key, vtype)->0, vtype) is Ok,
        value_end(d, find_value(d, at, n, key, vtype)->0, vtype)->Ok_0 <= entries_end(
            d,
            at,
            n,
        )->Ok_0,
        at <= find_value(d, at, n, key, vtype)->0,
    decreases n,
{
    let next = string_at(d, at)->Ok_0.1;
    value_takes_space(d, next + 4, u32_at(d, next));
    let end = entry_end(d, at)->Ok_0;
    entries_take_space(d, end, (n - 1) as nat);
    if !(string_at(d, at)->Ok_0.0 == key && u32_at(d, next) == vtype) {
        found_value_ends(d, end, (n - 1) as nat, key, vtype);
    }
}

/// Where all metadata lies within the file, every value and every array can be read.
pub proof fn complete_metadata_is_readable(f: GgufFile, key: Seq<char>, vtype: u32, elem: u32)
    requires
        f.wf(),
        f.metadata_complete(),
    ensures
        f.value_readable(key, vtype),
        f.array_readable(key, elem),
{
    let d = f.data@;
    let n = f.n_kv as nat;
    if f.value_of(key, vtype) is Some {
        found_value_ends(d, HEADER_BYTES as int, n, key, vtype);
    }
    if f.value_of(key, KV_ARRAY) is Some {
        found_value_ends(d, HEADER_BYTES as int, n, key, KV_ARRAY);
    }
}

} // verus!
