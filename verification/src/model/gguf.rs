//! Lazy GGUF reader.
//!
//! Reads the header, metadata and tensor directory — and stops. Tensor payload is never
//! touched, so the directory of a 100 GB model costs the same to read as that of a 1 GB one:
//! a planner has to see the shape of a model it cannot hold.
//!
//! The reader works on the bytes at the front of the file. When they end before the directory
//! does, the error says how many bytes the next read needs, so that whoever fetches the file
//! knows how far to go on; a directory that is complete reads the same whatever follows it.

use vstd::arithmetic::div_mod::*;
use vstd::arithmetic::power2::*;
use vstd::prelude::*;
use vstd::slice::slice_subrange;
use crate::model::ggml::GgmlType;
use crate::text;

verus! {

/// "GGUF", little-endian.
pub const MAGIC: u32 = 0x4655_4747;

// A corrupt file can encode enormous counts. Refuse them rather than attempting a
// multi-gigabyte allocation from a four-byte field.

/// The most tensors that a directory may claim.
pub const MAX_TENSORS: u64 = 0x40_0000;

/// The most metadata entries that a directory may claim.
pub const MAX_KV: u64 = 0x10_0000;

/// The most dimensions that a tensor may claim.
pub const MAX_DIMS: u64 = 8;

/// The most bytes that a string may claim.
pub const MAX_STRING: u64 = 0x400_0000;

/// The most items that an array may claim.
pub const MAX_ARRAY: u64 = 0x400_0000;

/// The boundary on which tensor data starts where the metadata names none.
pub const DEFAULT_ALIGNMENT: u64 = 32;

/// A metadata value from the GGUF key/value block.
///
/// Floating-point values are kept as the bits they are stored as.
#[derive(Debug, PartialEq, Eq)]
pub enum Value {
    U8(u8),
    I8(i8),
    U16(u16),
    I16(i16),
    U32(u32),
    I32(i32),
    /// The bits of a 32-bit float.
    F32(u32),
    Bool(bool),
    String(String),
    Array(Vec<Value>),
    U64(u64),
    I64(i64),
    /// The bits of a 64-bit float.
    F64(u64),
}

/// What a [`Value`] holds.
#[verifier::ext_equal]
pub enum ValueView {
    U8(u8),
    I8(i8),
    U16(u16),
    I16(i16),
    U32(u32),
    I32(i32),
    F32(u32),
    Bool(bool),
    String(Seq<char>),
    Array(Seq<ValueView>),
    U64(u64),
    I64(i64),
    F64(u64),
}

/// What a value holds.
pub open spec fn value_view(value: Value) -> ValueView
    decreases value,
{
    match value {
        Value::U8(v) => ValueView::U8(v),
        Value::I8(v) => ValueView::I8(v),
        Value::U16(v) => ValueView::U16(v),
        Value::I16(v) => ValueView::I16(v),
        Value::U32(v) => ValueView::U32(v),
        Value::I32(v) => ValueView::I32(v),
        Value::F32(v) => ValueView::F32(v),
        Value::Bool(v) => ValueView::Bool(v),
        Value::String(v) => ValueView::String(v@),
        Value::Array(v) => ValueView::Array(values_view(v@)),
        Value::U64(v) => ValueView::U64(v),
        Value::I64(v) => ValueView::I64(v),
        Value::F64(v) => ValueView::F64(v),
    }
}

/// What the values of a list hold.
pub open spec fn values_view(v: Seq<Value>) -> Seq<ValueView>
    decreases v,
{
    if v.len() == 0 {
        Seq::empty()
    } else {
        values_view(v.drop_last()).push(value_view(v.last()))
    }
}

impl View for Value {
    type V = ValueView;

    open spec fn view(&self) -> ValueView {
        value_view(*self)
    }
}

impl ValueView {
    /// The unsigned integer that the value is, whatever width it is stored at.
    pub open spec fn uint(self) -> Option<u64> {
        match self {
            ValueView::U8(v) => Some(v as u64),
            ValueView::U16(v) => Some(v as u64),
            ValueView::U32(v) => Some(v as u64),
            ValueView::U64(v) => Some(v),
            ValueView::I8(v) => if v >= 0 {
                Some(v as u64)
            } else {
                None
            },
            ValueView::I16(v) => if v >= 0 {
                Some(v as u64)
            } else {
                None
            },
            ValueView::I32(v) => if v >= 0 {
                Some(v as u64)
            } else {
                None
            },
            ValueView::I64(v) => if v >= 0 {
                Some(v as u64)
            } else {
                None
            },
            _ => None,
        }
    }

    /// The string that the value is.
    pub open spec fn string(self) -> Option<Seq<char>> {
        match self {
            ValueView::String(s) => Some(s),
            _ => None,
        }
    }
}

impl Value {
    /// Interpret as an unsigned integer, whatever width it was stored at.
    pub fn as_u64(&self) -> (r: Option<u64>)
        ensures
            r == self@.uint(),
    {
        match self {
            Value::U8(v) => Some(*v as u64),
            Value::U16(v) => Some(*v as u64),
            Value::U32(v) => Some(*v as u64),
            Value::U64(v) => Some(*v),
            Value::I8(v) => if *v >= 0 {
                Some(*v as u64)
            } else {
                None
            },
            Value::I16(v) => if *v >= 0 {
                Some(*v as u64)
            } else {
                None
            },
            Value::I32(v) => if *v >= 0 {
                Some(*v as u64)
            } else {
                None
            },
            Value::I64(v) => if *v >= 0 {
                Some(*v as u64)
            } else {
                None
            },
            _ => None,
        }
    }

    /// Interpret as a string.
    pub fn as_str(&self) -> (r: Option<&str>)
        ensures
            match r {
                Some(s) => self@.string() == Some(s@),
                None => self@.string() is None,
            },
    {
        match self {
            Value::String(s) => Some(s.as_str()),
            _ => None,
        }
    }
}

/// The key/value block of a GGUF file. Of two entries with one key, the later one counts.
#[derive(Debug)]
pub struct Metadata {
    entries: Vec<(String, Value)>,
}

/// The map that a list of entries describes: each entry overrides the earlier ones.
pub open spec fn entries_map(entries: Seq<(String, Value)>) -> Map<Seq<char>, ValueView>
    decreases entries.len(),
{
    if entries.len() == 0 {
        Map::empty()
    } else {
        entries_map(entries.drop_last()).insert(entries.last().0@, entries.last().1@)
    }
}

impl View for Metadata {
    type V = Map<Seq<char>, ValueView>;

    closed spec fn view(&self) -> Map<Seq<char>, ValueView> {
        entries_map(self.entries@)
    }
}

impl Metadata {
    /// Metadata without entries.
    pub fn new() -> (r: Self)
        ensures
            r@ == Map::<Seq<char>, ValueView>::empty(),
    {
        Metadata { entries: Vec::new() }
    }

    /// Adds an entry, in place of any earlier one with the same key.
    pub fn insert(&mut self, key: String, value: Value)
        ensures
            final(self)@ == old(self)@.insert(key@, value@),
    {
        let ghost before = self.entries@;
        self.entries.push((key, value));
        assert(self.entries@.drop_last() =~= before);
    }

    /// The value stored under a key.
    pub fn get(&self, key: &str) -> (r: Option<&Value>)
        ensures
            match r {
                Some(v) => self@.dom().contains(key@) && self@[key@] == v@,
                None => !self@.dom().contains(key@),
            },
    {
        let wanted = key.to_owned();
        let mut i = self.entries.len();
        assert(self.entries@.take(i as int) =~= self.entries@);
        while i > 0
            invariant
                wanted@ == key@,
                i <= self.entries@.len(),
                self@.dom().contains(key@) <==> entries_map(
                    self.entries@.take(i as int),
                ).dom().contains(key@),
                self@.dom().contains(key@) ==> self@[key@] == entries_map(
                    self.entries@.take(i as int),
                )[key@],
            decreases i,
        {
            assert(self.entries@.take(i as int).drop_last() =~= self.entries@.take(i - 1));
            i -= 1;
            if self.entries[i].0 == wanted {
                return Some(&self.entries[i].1);
            }
        }
        None
    }
}

/// Where one tensor lives and what shape it has.
#[derive(Debug)]
pub struct TensorInfo {
    /// Tensor name, e.g. `blk.0.ffn_gate_exps.weight`.
    pub name: String,
    /// Dimensions, innermost first, exactly as GGUF stores them.
    pub dims: Vec<u64>,
    /// Element type.
    pub dtype: GgmlType,
    /// Byte offset relative to the start of the tensor-data region.
    pub rel_offset: u64,
}

/// What a [`TensorInfo`] holds.
#[verifier::ext_equal]
pub struct TensorView {
    pub name: Seq<char>,
    pub dims: Seq<u64>,
    pub dtype: GgmlType,
    pub rel_offset: u64,
}

impl View for TensorInfo {
    type V = TensorView;

    open spec fn view(&self) -> TensorView {
        TensorView {
            name: self.name@,
            dims: self.dims@,
            dtype: self.dtype,
            rel_offset: self.rel_offset,
        }
    }
}

/// What the tensors of a directory hold.
pub open spec fn tensors_view(v: Seq<TensorInfo>) -> Seq<TensorView> {
    v.map_values(|t: TensorInfo| t@)
}

/// A parsed GGUF file: header, metadata and tensor directory, with no payload read.
#[derive(Debug)]
pub struct Gguf {
    /// Format version from the header.
    pub version: u32,
    /// Metadata key/value pairs.
    pub metadata: Metadata,
    /// Tensor directory, in file order.
    pub tensors: Vec<TensorInfo>,
    /// Absolute byte offset where tensor data begins.
    ///
    /// Add [`TensorInfo::rel_offset`] to this to get an absolute file offset.
    pub data_offset: u64,
}

/// What a [`Gguf`] holds.
#[verifier::ext_equal]
pub struct GgufView {
    pub version: u32,
    pub metadata: Map<Seq<char>, ValueView>,
    pub tensors: Seq<TensorView>,
    pub data_offset: u64,
}

impl View for Gguf {
    type V = GgufView;

    open spec fn view(&self) -> GgufView {
        GgufView {
            version: self.version,
            metadata: self.metadata@,
            tensors: tensors_view(self.tensors@),
            data_offset: self.data_offset,
        }
    }
}

/// Errors that can arise reading a GGUF directory.
#[derive(Debug, Clone, Copy, PartialEq, Eq)]
pub enum GgufError {
    /// The bytes end inside the directory; the read that failed ends at offset `needed`.
    Truncated { needed: u64 },
    BadMagic(u32),
    BadVersion(u32),
    BadValueType(u32),
    Implausible { what: &'static str, n: u64, limit: u64 },
    ImplausibleString(u64),
}

impl GgufError {
    /// What the error says.
    pub open spec fn text(self) -> Seq<char> {
        match self {
            GgufError::Truncated { .. } => "io error: failed to fill whole buffer"@,
            GgufError::BadMagic(magic) => "not a GGUF file: magic was 0x"@ + text::hex(
                magic as nat,
                8,
            ) + ", expected 0x"@ + text::hex(MAGIC as nat, 8),
            GgufError::BadVersion(v) => "unsupported GGUF version "@ + text::decimal(v as nat),
            GgufError::BadValueType(v) => "unknown metadata value type "@ + text::decimal(v as nat),
            GgufError::Implausible { what, n, limit } => what@ + " claims "@ + text::decimal(
                n as nat,
            ) + " entries, which exceeds the "@ + text::decimal(limit as nat) + " sanity limit"@,
            GgufError::ImplausibleString(n) => "string of "@ + text::decimal(n as nat)
                + " bytes is implausible"@,
        }
    }

    /// The error in words.
    pub fn message(&self) -> (r: String)
        ensures
            r@ == self.text(),
    {
        match self {
            GgufError::Truncated { .. } => String::from_str("io error: failed to fill whole buffer"),
            GgufError::BadMagic(magic) => {
                let mut s = String::from_str("not a GGUF file: magic was 0x");
                let seen = text::to_hex(*magic as u64, 8);
                let wanted = text::to_hex(MAGIC as u64, 8);
                text::append_chars(&mut s, seen.as_slice());
                s.append(", expected 0x");
                text::append_chars(&mut s, wanted.as_slice());
                s
            },
            GgufError::BadVersion(v) => {
                let mut s = String::from_str("unsupported GGUF version ");
                s.append(text::decimal_string(*v as u64).as_str());
                s
            },
            GgufError::BadValueType(v) => {
                let mut s = String::from_str("unknown metadata value type ");
                s.append(text::decimal_string(*v as u64).as_str());
                s
            },
            GgufError::Implausible { what, n, limit } => {
                let mut s = String::from_str(what);
                s.append(" claims ");
                s.append(text::decimal_string(*n).as_str());
                s.append(" entries, which exceeds the ");
                s.append(text::decimal_string(*limit).as_str());
                s.append(" sanity limit");
                s
            },
            GgufError::ImplausibleString(n) => {
                let mut s = String::from_str("string of ");
                s.append(text::decimal_string(*n).as_str());
                s.append(" bytes is implausible");
                s
            },
        }
    }
}

// ---------------------------------------------------------------------------
// The format

/// The `n` bytes at `pos`, and the offset after them.
pub open spec fn bytes_at(b: Seq<u8>, pos: int, n: int) -> Result<(Seq<u8>, int), GgufError> {
    if pos + n <= b.len() {
        Ok((b.subrange(pos, pos + n), pos + n))
    } else {
        Err(GgufError::Truncated { needed: (pos + n) as u64 })
    }
}

/// The number that bytes stand for, least significant byte first.
pub open spec fn little_endian(b: Seq<u8>) -> nat
    decreases b.len(),
{
    if b.len() == 0 {
        0
    } else {
        little_endian(b.drop_first()) * 256 + b.first() as nat
    }
}

/// The little-endian number that the `n` bytes at `pos` hold.
pub open spec fn uint_at(b: Seq<u8>, pos: int, n: int) -> Result<(nat, int), GgufError> {
    match bytes_at(b, pos, n) {
        Ok((s, next)) => Ok((little_endian(s), next)),
        Err(e) => Err(e),
    }
}

/// The number that `v` stands for in two's complement, where `span` is the number of values
/// that its width can hold.
pub open spec fn signed(v: nat, span: nat) -> int {
    if 2 * v < span {
        v as int
    } else {
        v - span
    }
}

/// The string at `pos`: its length in eight bytes, then its bytes.
pub open spec fn string_at(b: Seq<u8>, pos: int) -> Result<(Seq<char>, int), GgufError> {
    match uint_at(b, pos, 8) {
        Ok((len, at)) => if len > MAX_STRING {
            Err(GgufError::ImplausibleString(len as u64))
        } else {
            match bytes_at(b, at, len as int) {
                Ok((s, next)) => Ok((text::text_of(s), next)),
                Err(e) => Err(e),
            }
        },
        Err(e) => Err(e),
    }
}

/// The value of type `ty` at `pos`.
pub open spec fn value_at(b: Seq<u8>, ty: u32, pos: int) -> Result<(ValueView, int), GgufError>
    decreases b.len() - pos, 0nat,
{
    if ty == 0 || ty == 1 || ty == 7 {
        match uint_at(b, pos, 1) {
            Ok((v, next)) => Ok(
                (
                    if ty == 0 {
                        ValueView::U8(v as u8)
                    } else if ty == 1 {
                        ValueView::I8(signed(v, 0x100) as i8)
                    } else {
                        ValueView::Bool(v != 0)
                    },
                    next,
                ),
            ),
            Err(e) => Err(e),
        }
    } else if ty == 2 || ty == 3 {
        match uint_at(b, pos, 2) {
            Ok((v, next)) => Ok(
                (
                    if ty == 2 {
                        ValueView::U16(v as u16)
                    } else {
                        ValueView::I16(signed(v, 0x1_0000) as i16)
                    },
                    next,
                ),
            ),
            Err(e) => Err(e),
        }
    } else if ty == 4 || ty == 5 || ty == 6 {
        match uint_at(b, pos, 4) {
            Ok((v, next)) => Ok(
                (
                    if ty == 4 {
                        ValueView::U32(v as u32)
                    } else if ty == 5 {
                        ValueView::I32(signed(v, 0x1_0000_0000) as i32)
                    } else {
                        ValueView::F32(v as u32)
                    },
                    next,
                ),
            ),
            Err(e) => Err(e),
        }
    } else if ty == 10 || ty == 11 || ty == 12 {
        match uint_at(b, pos, 8) {
            Ok((v, next)) => Ok(
                (
                    if ty == 10 {
                        ValueView::U64(v as u64)
                    } else if ty == 11 {
                        ValueView::I64(signed(v, 0x1_0000_0000_0000_0000) as i64)
                    } else {
                        ValueView::F64(v as u64)
                    },
                    next,
                ),
            ),
            Err(e) => Err(e),
        }
    } else if ty == 8 {
        match string_at(b, pos) {
            Ok((s, next)) => Ok((ValueView::String(s), next)),
            Err(e) => Err(e),
        }
    } else if ty == 9 {
        match uint_at(b, pos, 4) {
            Ok((elem, at)) => match uint_at(b, at, 8) {
                Ok((n, first)) => if n > MAX_ARRAY {
                    Err(
                        GgufError::Implausible { what: "array", n: n as u64, limit: MAX_ARRAY },
                    )
                } else {
                    match items_at(b, elem as u32, n, first, Seq::empty()) {
                        Ok((items, next)) => Ok((ValueView::Array(items), next)),
                        Err(e) => Err(e),
                    }
                },
                Err(e) => Err(e),
            },
            Err(e) => Err(e),
        }
    } else {
        Err(GgufError::BadValueType(ty))
    }
}

/// `done`, followed by the `n` values of type `ty` that stand one after another from `pos` on.
/// (Every value takes at least one byte and ends inside the file.)
pub open spec fn items_at(
    b: Seq<u8>,
    ty: u32,
    n: nat,
    pos: int,
    done: Seq<ValueView>,
) -> Result<(Seq<ValueView>, int), GgufError>
    decreases b.len() - pos, n,
{
    if n == 0 {
        Ok((done, pos))
    } else {
        match value_at(b, ty, pos) {
            Ok((v, next)) => if pos < next <= b.len() {
                items_at(b, ty, (n - 1) as nat, next, done.push(v))
            } else {
                Ok((done, pos))
            },
            Err(e) => Err(e),
        }
    }
}

/// The metadata entry at `pos`: its key, the type of its value and its value.
pub open spec fn entry_at(b: Seq<u8>, pos: int) -> Result<
    ((Seq<char>, ValueView), int),
    GgufError,
> {
    match string_at(b, pos) {
        Ok((key, at)) => match uint_at(b, at, 4) {
            Ok((ty, first)) => match value_at(b, ty as u32, first) {
                Ok((v, next)) => Ok(((key, v), next)),
                Err(e) => Err(e),
            },
            Err(e) => Err(e),
        },
        Err(e) => Err(e),
    }
}

/// `done` with the `n` metadata entries that stand from `pos` on.
pub open spec fn entries_at(
    b: Seq<u8>,
    n: nat,
    pos: int,
    done: Map<Seq<char>, ValueView>,
) -> Result<(Map<Seq<char>, ValueView>, int), GgufError>
    decreases n,
{
    if n == 0 {
        Ok((done, pos))
    } else {
        match entry_at(b, pos) {
            Ok(((key, v), next)) => entries_at(b, (n - 1) as nat, next, done.insert(key, v)),
            Err(e) => Err(e),
        }
    }
}

/// `done`, followed by the `n` dimensions that stand from `pos` on.
pub open spec fn dims_at(b: Seq<u8>, n: nat, pos: int, done: Seq<u64>) -> Result<
    (Seq<u64>, int),
    GgufError,
>
    decreases n,
{
    if n == 0 {
        Ok((done, pos))
    } else {
        match uint_at(b, pos, 8) {
            Ok((d, next)) => dims_at(b, (n - 1) as nat, next, done.push(d as u64)),
            Err(e) => Err(e),
        }
    }
}

/// The directory entry of a tensor at `pos`: its name, its dimensions with their number
/// before them, its type and its offset.
pub open spec fn tensor_at(b: Seq<u8>, pos: int) -> Result<(TensorView, int), GgufError> {
    match string_at(b, pos) {
        Ok((name, p1)) => match uint_at(b, p1, 4) {
            Ok((rank, p2)) => if rank > MAX_DIMS {
                Err(
                    GgufError::Implausible {
                        what: "tensor rank",
                        n: rank as u64,
                        limit: MAX_DIMS,
                    },
                )
            } else {
                match dims_at(b, rank, p2, Seq::empty()) {
                    Ok((dims, p3)) => match uint_at(b, p3, 4) {
                        Ok((ty, p4)) => match uint_at(b, p4, 8) {
                            Ok((offset, next)) => Ok(
                                (
                                    TensorView {
                                        name,
                                        dims,
                                        dtype: GgmlType(ty as u32),
                                        rel_offset: offset as u64,
                                    },
                                    next,
                                ),
                            ),
                            Err(e) => Err(e),
                        },
                        Err(e) => Err(e),
                    },
                    Err(e) => Err(e),
                }
            },
            Err(e) => Err(e),
        },
        Err(e) => Err(e),
    }
}

/// `done`, followed by the `n` tensors whose entries stand from `pos` on.
pub open spec fn tensors_at(b: Seq<u8>, n: nat, pos: int, done: Seq<TensorView>) -> Result<
    (Seq<TensorView>, int),
    GgufError,
>
    decreases n,
{
    if n == 0 {
        Ok((done, pos))
    } else {
        match tensor_at(b, pos) {
            Ok((t, next)) => tensors_at(b, (n - 1) as nat, next, done.push(t)),
            Err(e) => Err(e),
        }
    }
}

/// The integer stored under a metadata key, if there is one.
pub open spec fn meta_uint(m: Map<Seq<char>, ValueView>, key: Seq<char>) -> Option<u64> {
    if m.dom().contains(key) {
        m[key].uint()
    } else {
        None
    }
}

/// The string stored under a metadata key, if there is one.
pub open spec fn meta_string(m: Map<Seq<char>, ValueView>, key: Seq<char>) -> Option<Seq<char>> {
    if m.dom().contains(key) {
        m[key].string()
    } else {
        None
    }
}

/// The boundary on which tensor data starts: what the metadata says, if that is a power of two.
pub open spec fn alignment(m: Map<Seq<char>, ValueView>) -> u64 {
    match meta_uint(m, "general.alignment"@) {
        Some(a) => if is_pow2(a as int) {
            a
        } else {
            DEFAULT_ALIGNMENT
        },
        None => DEFAULT_ALIGNMENT,
    }
}

/// The first multiple of `a` that is not below `n`.
pub open spec fn round_up(n: int, a: int) -> int {
    (n + a - 1) / a * a
}

/// The metadata and the tensors of a file whose header has been read: `kvs` entries from
/// `pos` on, then `tensors` directory entries, then data on the next boundary.
pub open spec fn body_at(b: Seq<u8>, version: u32, tensors: nat, kvs: nat, pos: int) -> Result<
    GgufView,
    GgufError,
> {
    match entries_at(b, kvs, pos, Map::empty()) {
        Ok((metadata, p)) => match tensors_at(b, tensors, p, Seq::empty()) {
            Ok((tensors, end)) => Ok(
                GgufView {
                    version,
                    metadata,
                    tensors,
                    data_offset: round_up(end, alignment(metadata) as int) as u64,
                },
            ),
            Err(e) => Err(e),
        },
        Err(e) => Err(e),
    }
}

/// The directory at the front of a file: magic, version, how many tensors, how many metadata
/// entries, then those entries and those tensors.
pub open spec fn directory(b: Seq<u8>) -> Result<GgufView, GgufError> {
    match uint_at(b, 0, 4) {
        Ok((magic, p1)) => if magic != MAGIC {
            Err(GgufError::BadMagic(magic as u32))
        } else {
            match uint_at(b, p1, 4) {
                Ok((version, p2)) => if !(2 <= version <= 3) {
                    Err(GgufError::BadVersion(version as u32))
                } else {
                    match uint_at(b, p2, 8) {
                        Ok((tensors, p3)) => if tensors > MAX_TENSORS {
                            Err(
                                GgufError::Implausible {
                                    what: "tensor count",
                                    n: tensors as u64,
                                    limit: MAX_TENSORS,
                                },
                            )
                        } else {
                            match uint_at(b, p3, 8) {
                                Ok((kvs, p4)) => if kvs > MAX_KV {
                                    Err(
                                        GgufError::Implausible {
                                            what: "metadata count",
                                            n: kvs as u64,
                                            limit: MAX_KV,
                                        },
                                    )
                                } else {
                                    body_at(b, version as u32, tensors, kvs, p4)
                                },
                                Err(e) => Err(e),
                            }
                        },
                        Err(e) => Err(e),
                    }
                },
                Err(e) => Err(e),
            }
        },
        Err(e) => Err(e),
    }
}

/// Rounding up gives a multiple, not below what was rounded and less than one step above it.
pub proof fn lemma_round_up(n: int, a: int)
    requires
        n >= 0,
        a > 0,
    ensures
        round_up(n, a) % a == 0,
        n <= round_up(n, a) < n + a,
        0 <= n % a <= n,
        n % a == 0 ==> round_up(n, a) == n,
        n % a != 0 ==> round_up(n, a) == n - n % a + a,
{
    let q = n / a;
    let m = n % a;
    lemma_fundamental_div_mod(n, a);
    lemma_mod_bound(n, a);
    lemma_div_pos_is_pos(n, a);
    assert(a * q >= 0) by (nonlinear_arith)
        requires
            a > 0,
            q >= 0,
    ;
    if m == 0 {
        assert(n + a - 1 == q * a + (a - 1)) by (nonlinear_arith)
            requires
                n == a * q,
        ;
        lemma_fundamental_div_mod_converse(n + a - 1, a, q, a - 1);
        assert(q * a == a * q) by (nonlinear_arith);
        lemma_fundamental_div_mod_converse(n, a, q, 0);
    } else {
        assert(n + a - 1 == (q + 1) * a + (m - 1)) by (nonlinear_arith)
            requires
                n == a * q + m,
        ;
        lemma_mod_bound(n, a);
        lemma_fundamental_div_mod_converse(n + a - 1, a, q + 1, m - 1);
        assert((q + 1) * a == a * q + a) by (nonlinear_arith);
        lemma_fundamental_div_mod_converse((q + 1) * a, a, q + 1, 0);
    }
}

/// Of two powers of two, the smaller divides the larger.
proof fn lemma_pow2_divides(a: int, b: int)
    requires
        is_pow2(a),
        is_pow2(b),
        a <= b,
    ensures
        b % a == 0,
    decreases a,
{
    reveal(is_pow2);
    if a > 1 {
        lemma_pow2_divides(a / 2, b / 2);
        let h = a / 2;
        let k = (b / 2) / h;
        lemma_fundamental_div_mod(b / 2, h);
        assert(b == k * a) by (nonlinear_arith)
            requires
                b == 2 * (b / 2),
                a == 2 * h,
                b / 2 == h * k,
        ;
        lemma_fundamental_div_mod_converse(b, a, k, 0);
    }
}

/// Rounding up to a power of two within 64 bits stays within 64 bits.
proof fn lemma_round_up_bound(n: int, a: int)
    requires
        0 <= n <= i64::MAX,
        a <= u64::MAX,
        is_pow2(a),
    ensures
        0 < a <= 0x8000_0000_0000_0000,
        round_up(n, a) <= 0x8000_0000_0000_0000,
{
    let top = 0x8000_0000_0000_0000int;
    assert(a > 0) by {
        reveal(is_pow2);
    }
    assert(is_pow2(top)) by {
        lemma2_to64_rest();
        lemma_pow2(63);
        assert(vstd::arithmetic::power::pow(2, 63) == top);
        is_pow2_equiv(top);
    }
    if a > top {
        lemma_pow2_divides(top, a);
        lemma_fundamental_div_mod(a, top);
        assert(a / top == 1);
    }
    lemma_pow2_divides(a, top);
    lemma_round_up(n, a);
    let r = round_up(n, a);
    if r > top {
        lemma_fundamental_div_mod(r, a);
        lemma_fundamental_div_mod(top, a);
        assert(r >= top + a) by (nonlinear_arith)
            requires
                r == a * (r / a),
                top == a * (top / a),
                r > top,
                a > 0,
        ;
    }
}

// ---------------------------------------------------------------------------
// The reader

/// One more than the largest number that `n` bytes can hold, for up to eight bytes.
spec fn byte_span(n: nat) -> nat
    recommends
        n <= 8,
{
    if n == 0 {
        1
    } else if n == 1 {
        0x100
    } else if n == 2 {
        0x1_0000
    } else if n == 3 {
        0x100_0000
    } else if n == 4 {
        0x1_0000_0000
    } else if n == 5 {
        0x100_0000_0000
    } else if n == 6 {
        0x1_0000_0000_0000
    } else if n == 7 {
        0x100_0000_0000_0000
    } else {
        0x1_0000_0000_0000_0000
    }
}

proof fn lemma_little_endian_bound(b: Seq<u8>)
    requires
        b.len() <= 8,
    ensures
        little_endian(b) < byte_span(b.len()),
    decreases b.len(),
{
    if b.len() > 0 {
        lemma_little_endian_bound(b.drop_first());
    }
}

/// Reads the little-endian number in the `n` bytes at `pos`.
fn read_uint(b: &[u8], pos: usize, n: usize) -> (r: Result<(u64, usize), GgufError>)
    requires
        pos <= b@.len() <= isize::MAX,
        n <= 8,
    ensures
        match r {
            Ok((v, next)) => {
                &&& uint_at(b@, pos as int, n as int) == Ok::<(nat, int), GgufError>(
                    (v as nat, next as int),
                )
                &&& next == pos + n <= b@.len()
                &&& v < byte_span(n as nat)
            },
            Err(e) => uint_at(b@, pos as int, n as int) == Err::<(nat, int), GgufError>(e),
        },
{
    let len = b.len();
    if n > len - pos {
        return Err(GgufError::Truncated { needed: (pos + n) as u64 });
    }
    let ghost field = b@.subrange(pos as int, pos + n);
    let mut v: u64 = 0;
    let mut k: usize = n;
    assert(field.skip(n as int) =~= Seq::<u8>::empty());
    while k > 0
        invariant
            n <= 8,
            k <= n,
            len == b@.len(),
            pos + n <= len,
            field == b@.subrange(pos as int, pos + n),
            v == little_endian(field.skip(k as int)),
        decreases k,
    {
        proof {
            assert(field.skip(k - 1).drop_first() =~= field.skip(k as int));
            lemma_little_endian_bound(field.skip(k - 1));
            lemma_little_endian_bound(field.skip(k as int));
            assert(field.skip(k - 1).first() == b@[pos + k - 1]);
        }
        k -= 1;
        v = v * 256 + b[pos + k] as u64;
    }
    assert(field.skip(0) =~= field);
    proof {
        lemma_little_endian_bound(field);
    }
    Ok((v, pos + n))
}

/// The little-endian number in the first eight bytes.
pub fn u64_at_front(b: &[u8]) -> (r: u64)
    requires
        b@.len() >= 8,
    ensures
        r == little_endian(b@.take(8)),
{
    let front = slice_subrange(b, 0, 8);
    assert(front@ =~= b@.take(8));
    assert(front@.subrange(0, 8) =~= front@);
    match read_uint(front, 0, 8) {
        Ok((v, _)) => v,
        Err(_) => 0,
    }
}

/// Reads the string at `pos`.
fn read_string(b: &[u8], pos: usize) -> (r: Result<(String, usize), GgufError>)
    requires
        pos <= b@.len() <= isize::MAX,
    ensures
        match r {
            Ok((s, next)) => {
                &&& string_at(b@, pos as int) == Ok::<(Seq<char>, int), GgufError>(
                    (s@, next as int),
                )
                &&& pos < next <= b@.len()
            },
            Err(e) => string_at(b@, pos as int) == Err::<(Seq<char>, int), GgufError>(e),
        },
{
    match read_uint(b, pos, 8) {
        Ok((len, at)) => {
            if len > MAX_STRING {
                return Err(GgufError::ImplausibleString(len));
            }
            let n = len as usize;
            let all = b.len();
            if n > all - at {
                return Err(GgufError::Truncated { needed: at as u64 + len });
            }
            // A malformed byte must not abort a whole model load: substituting is strictly
            // more useful than failing here.
            Ok((text::decoded(slice_subrange(b, at, at + n)), at + n))
        },
        Err(e) => Err(e),
    }
}

/// Reads the value of type `ty` at `pos`.
fn read_value(b: &[u8], ty: u32, pos: usize) -> (r: Result<(Value, usize), GgufError>)
    requires
        pos <= b@.len() <= isize::MAX,
    ensures
        match r {
            Ok((v, next)) => {
                &&& value_at(b@, ty, pos as int) == Ok::<(ValueView, int), GgufError>(
                    (v@, next as int),
                )
                &&& pos < next <= b@.len()
            },
            Err(e) => value_at(b@, ty, pos as int) == Err::<(ValueView, int), GgufError>(e),
        },
    decreases b@.len() - pos,
{
    if ty == 0 || ty == 1 || ty == 7 {
        return match read_uint(b, pos, 1) {
            Ok((v, next)) => Ok(
                (
                    if ty == 0 {
                        Value::U8(v as u8)
                    } else if ty == 1 {
                        Value::I8((v as i64 - if v < 0x80 { 0 } else { 0x100 }) as i8)
                    } else {
                        Value::Bool(v != 0)
                    },
                    next,
                ),
            ),
            Err(e) => Err(e),
        };
    }
    if ty == 2 || ty == 3 {
        return match read_uint(b, pos, 2) {
            Ok((v, next)) => Ok(
                (
                    if ty == 2 {
                        Value::U16(v as u16)
                    } else {
                        Value::I16((v as i64 - if v < 0x8000 { 0 } else { 0x1_0000 }) as i16)
                    },
                    next,
                ),
            ),
            Err(e) => Err(e),
        };
    }
    if ty == 4 || ty == 5 || ty == 6 {
        return match read_uint(b, pos, 4) {
            Ok((v, next)) => Ok(
                (
                    if ty == 4 {
                        Value::U32(v as u32)
                    } else if ty == 5 {
                        Value::I32(
                            (v as i64 - if v < 0x8000_0000 { 0 } else { 0x1_0000_0000 }) as i32,
                        )
                    } else {
                        Value::F32(v as u32)
                    },
                    next,
                ),
            ),
            Err(e) => Err(e),
        };
    }
    if ty == 10 || ty == 11 || ty == 12 {
        return match read_uint(b, pos, 8) {
            Ok((v, next)) => Ok(
                (
                    if ty == 10 {
                        Value::U64(v)
                    } else if ty == 11 {
                        Value::I64(
                            (v as i128 - if v < 0x8000_0000_0000_0000 {
                                0
                            } else {
                                0x1_0000_0000_0000_0000
                            }) as i64,
                        )
                    } else {
                        Value::F64(v)
                    },
                    next,
                ),
            ),
            Err(e) => Err(e),
        };
    }
    if ty == 8 {
        return match read_string(b, pos) {
            Ok((s, next)) => Ok((Value::String(s), next)),
            Err(e) => Err(e),
        };
    }
    if ty != 9 {
        return Err(GgufError::BadValueType(ty));
    }
    let (elem, at) = match read_uint(b, pos, 4) {
        Ok((v, next)) => (v as u32, next),
        Err(e) => return Err(e),
    };
    let (n, first) = match read_uint(b, at, 8) {
        Ok((v, next)) => (v, next),
        Err(e) => return Err(e),
    };
    if n > MAX_ARRAY {
        return Err(GgufError::Implausible { what: "array", n, limit: MAX_ARRAY });
    }
    let mut items: Vec<Value> = Vec::new();
    let mut p: usize = first;
    let mut i: u64 = 0;
    assert(values_view(items@) =~= Seq::<ValueView>::empty());
    while i < n
        invariant
            ty == 9,
            uint_at(b@, pos as int, 4) == Ok::<(nat, int), GgufError>((elem as nat, at as int)),
            uint_at(b@, at as int, 8) == Ok::<(nat, int), GgufError>((n as nat, first as int)),
            i <= n <= MAX_ARRAY,
            pos < first <= p <= b@.len() <= isize::MAX,
            items_at(b@, elem, n as nat, first as int, Seq::empty()) == items_at(
                b@,
                elem,
                (n - i) as nat,
                p as int,
                values_view(items@),
            ),
        decreases n - i,
    {
        let ghost before = items@;
        match read_value(b, elem, p) {
            Ok((v, next)) => {
                items.push(v);
                p = next;
                assert(items@.drop_last() =~= before);
            },
            Err(e) => {
                return Err(e);
            },
        }
        i += 1;
    }
    Ok((Value::Array(items), p))
}

/// Reads `n` metadata entries from `pos` on.
fn read_entries(b: &[u8], n: u64, pos: usize) -> (r: Result<(Metadata, usize), GgufError>)
    requires
        pos <= b@.len() <= isize::MAX,
    ensures
        match r {
            Ok((m, next)) => {
                &&& entries_at(b@, n as nat, pos as int, Map::empty()) == Ok::<
                    (Map<Seq<char>, ValueView>, int),
                    GgufError,
                >((m@, next as int))
                &&& pos <= next <= b@.len()
            },
            Err(e) => entries_at(b@, n as nat, pos as int, Map::empty()) == Err::<
                (Map<Seq<char>, ValueView>, int),
                GgufError,
            >(e),
        },
{
    let mut metadata = Metadata::new();
    let mut p: usize = pos;
    let mut i: u64 = 0;
    while i < n
        invariant
            i <= n,
            pos <= p <= b@.len() <= isize::MAX,
            entries_at(b@, n as nat, pos as int, Map::empty()) == entries_at(
                b@,
                (n - i) as nat,
                p as int,
                metadata@,
            ),
        decreases n - i,
    {
        let (key, at) = match read_string(b, p) {
            Ok(x) => x,
            Err(e) => return Err(e),
        };
        let (ty, first) = match read_uint(b, at, 4) {
            Ok((v, next)) => (v as u32, next),
            Err(e) => return Err(e),
        };
        let (value, next) = match read_value(b, ty, first) {
            Ok(x) => x,
            Err(e) => return Err(e),
        };
        metadata.insert(key, value);
        p = next;
        i += 1;
    }
    Ok((metadata, p))
}

/// Reads `n` dimensions from `pos` on.
fn read_dims(b: &[u8], n: u64, pos: usize) -> (r: Result<(Vec<u64>, usize), GgufError>)
    requires
        pos <= b@.len() <= isize::MAX,
    ensures
        match r {
            Ok((dims, next)) => {
                &&& dims_at(b@, n as nat, pos as int, Seq::empty()) == Ok::<
                    (Seq<u64>, int),
                    GgufError,
                >((dims@, next as int))
                &&& pos <= next <= b@.len()
            },
            Err(e) => dims_at(b@, n as nat, pos as int, Seq::empty()) == Err::<
                (Seq<u64>, int),
                GgufError,
            >(e),
        },
{
    let mut dims: Vec<u64> = Vec::new();
    let mut p: usize = pos;
    let mut i: u64 = 0;
    assert(dims@ =~= Seq::<u64>::empty());
    while i < n
        invariant
            i <= n,
            pos <= p <= b@.len() <= isize::MAX,
            dims_at(b@, n as nat, pos as int, Seq::empty()) == dims_at(
                b@,
                (n - i) as nat,
                p as int,
                dims@,
            ),
        decreases n - i,
    {
        match read_uint(b, p, 8) {
            Ok((d, next)) => {
                dims.push(d);
                p = next;
            },
            Err(e) => {
                return Err(e);
            },
        }
        i += 1;
    }
    Ok((dims, p))
}

/// Reads the directory entry of a tensor at `pos`.
fn read_tensor(b: &[u8], pos: usize) -> (r: Result<(TensorInfo, usize), GgufError>)
    requires
        pos <= b@.len() <= isize::MAX,
    ensures
        match r {
            Ok((t, next)) => {
                &&& tensor_at(b@, pos as int) == Ok::<(TensorView, int), GgufError>(
                    (t@, next as int),
                )
                &&& pos <= next <= b@.len()
            },
            Err(e) => tensor_at(b@, pos as int) == Err::<(TensorView, int), GgufError>(e),
        },
{
    let (name, p1) = match read_string(b, pos) {
        Ok(x) => x,
        Err(e) => return Err(e),
    };
    let (rank, p2) = match read_uint(b, p1, 4) {
        Ok(x) => x,
        Err(e) => return Err(e),
    };
    if rank > MAX_DIMS {
        return Err(GgufError::Implausible { what: "tensor rank", n: rank, limit: MAX_DIMS });
    }
    let (dims, p3) = match read_dims(b, rank, p2) {
        Ok(x) => x,
        Err(e) => return Err(e),
    };
    let (ty, p4) = match read_uint(b, p3, 4) {
        Ok((v, next)) => (v as u32, next),
        Err(e) => return Err(e),
    };
    let (rel_offset, next) = match read_uint(b, p4, 8) {
        Ok(x) => x,
        Err(e) => return Err(e),
    };
    Ok((TensorInfo { name, dims, dtype: GgmlType(ty), rel_offset }, next))
}

/// Reads the directory entries of `n` tensors from `pos` on.
fn read_tensors(b: &[u8], n: u64, pos: usize) -> (r: Result<(Vec<TensorInfo>, usize), GgufError>)
    requires
        pos <= b@.len() <= isize::MAX,
    ensures
        match r {
            Ok((tensors, next)) => {
                &&& tensors_at(b@, n as nat, pos as int, Seq::empty()) == Ok::<
                    (Seq<TensorView>, int),
                    GgufError,
                >((tensors_view(tensors@), next as int))
                &&& pos <= next <= b@.len()
            },
            Err(e) => tensors_at(b@, n as nat, pos as int, Seq::empty()) == Err::<
                (Seq<TensorView>, int),
                GgufError,
            >(e),
        },
{
    let mut tensors: Vec<TensorInfo> = Vec::new();
    let mut p: usize = pos;
    let mut i: u64 = 0;
    assert(tensors_view(tensors@) =~= Seq::<TensorView>::empty());
    while i < n
        invariant
            i <= n,
            pos <= p <= b@.len() <= isize::MAX,
            tensors_at(b@, n as nat, pos as int, Seq::empty()) == tensors_at(
                b@,
                (n - i) as nat,
                p as int,
                tensors_view(tensors@),
            ),
        decreases n - i,
    {
        let ghost before = tensors@;
        match read_tensor(b, p) {
            Ok((t, next)) => {
                tensors.push(t);
                p = next;
                assert(tensors_view(tensors@) =~= tensors_view(before).push(t@));
            },
            Err(e) => {
                return Err(e);
            },
        }
        i += 1;
    }
    Ok((tensors, p))
}

/// Whether `n` is a power of two.
fn is_power_of_two(n: u64) -> (r: bool)
    ensures
        r == is_pow2(n as int),
{
    let mut m: u64 = n;
    while m > 1
        invariant
            is_pow2(m as int) == is_pow2(n as int),
            m > 0 || n == 0,
        decreases m,
    {
        reveal(is_pow2);
        if m % 2 != 0 {
            return false;
        }
        m = m / 2;
    }
    reveal(is_pow2);
    m == 1
}

/// The first multiple of a power of two that is not below `n`.
fn align_up(n: u64, a: u64) -> (r: u64)
    requires
        n <= i64::MAX,
        is_pow2(a as int),
    ensures
        r == round_up(n as int, a as int),
{
    proof {
        lemma_round_up_bound(n as int, a as int);
        lemma_round_up(n as int, a as int);
        lemma_mod_bound(n as int, a as int);
    }
    let rest = n % a;
    if rest == 0 {
        n
    } else {
        n - rest + a
    }
}

// ---------------------------------------------------------------------------
// Tensors and their sizes

/// The product of dimensions.
pub open spec fn product(dims: Seq<u64>) -> nat
    decreases dims.len(),
{
    if dims.len() == 0 {
        1
    } else {
        product(dims.drop_last()) * dims.last() as nat
    }
}

/// Multiplying the dimensions one after another stays within 64 bits.
pub open spec fn dims_fit(dims: Seq<u64>) -> bool {
    forall|k: int| 0 <= k <= dims.len() ==> product(#[trigger] dims.take(k)) <= u64::MAX
}

impl TensorView {
    /// Total number of weights.
    pub open spec fn elems(self) -> nat {
        product(self.dims)
    }

    /// Total size in bytes, if the type is known and the weights are whole blocks of it.
    pub open spec fn size(self) -> Option<int> {
        self.dtype.size_of(self.elems() as int)
    }

    /// The number of weights and the end of the tensor in a file whose data starts at
    /// `data_offset` stay within 64 bits.
    pub open spec fn sized(self, data_offset: u64) -> bool {
        &&& dims_fit(self.dims)
        &&& data_offset + self.rel_offset <= u64::MAX
        &&& self.size() matches Some(n) ==> data_offset + self.rel_offset + n <= u64::MAX
    }
}

/// The first tensor of a directory that has the given name.
pub open spec fn find_tensor(tensors: Seq<TensorView>, name: Seq<char>) -> Option<TensorView>
    decreases tensors.len(),
{
    if tensors.len() == 0 {
        None
    } else if tensors.first().name == name {
        Some(tensors.first())
    } else {
        find_tensor(tensors.drop_first(), name)
    }
}

/// The tensor found under a name has that name, and is one of the tensors.
pub proof fn lemma_found_has_name(tensors: Seq<TensorView>, name: Seq<char>)
    ensures
        find_tensor(tensors, name) matches Some(t) ==> t.name == name && tensors.contains(t),
    decreases tensors.len(),
{
    if tensors.len() > 0 {
        if tensors.first().name == name {
            assert(tensors.contains(tensors[0]));
        } else {
            lemma_found_has_name(tensors.drop_first(), name);
            if let Some(t) = find_tensor(tensors.drop_first(), name) {
                let i = choose|i: int|
                    0 <= i < tensors.drop_first().len() && tensors.drop_first()[i] == t;
                assert(tensors[i + 1] == t);
            }
        }
    }
}

/// The bytes of all the tensors whose size is known.
pub open spec fn total_size(tensors: Seq<TensorView>) -> int
    decreases tensors.len(),
{
    if tensors.len() == 0 {
        0
    } else {
        total_size(tensors.drop_last()) + match tensors.last().size() {
            Some(n) => n,
            None => 0,
        }
    }
}

impl GgufView {
    /// The model architecture.
    pub open spec fn arch(self) -> Option<Seq<char>> {
        meta_string(self.metadata, "general.architecture"@)
    }

    /// The integer stored under a key that is scoped by the architecture.
    pub open spec fn arch_uint(self, suffix: Seq<char>) -> Option<u64> {
        match self.arch() {
            Some(arch) => meta_uint(self.metadata, arch + "."@ + suffix),
            None => None,
        }
    }

    /// The first tensor that has the given name.
    pub open spec fn find(self, name: Seq<char>) -> Option<TensorView> {
        find_tensor(self.tensors, name)
    }

    /// Every tensor's size and end, and the sum of the sizes, stay within 64 bits.
    pub open spec fn sized(self) -> bool {
        &&& forall|i: int|
            0 <= i < self.tensors.len() ==> (#[trigger] self.tensors[i]).sized(self.data_offset)
        &&& total_size(self.tensors) <= u64::MAX
    }
}

/// Sizes are not negative, so the sum over more tensors is not smaller.
proof fn lemma_total_size_grows(tensors: Seq<TensorView>, i: int)
    requires
        0 <= i <= tensors.len(),
    ensures
        0 <= total_size(tensors.take(i)) <= total_size(tensors),
    decreases tensors.len(),
{
    if i == tensors.len() {
        assert(tensors.take(i) =~= tensors);
        if i > 0 {
            lemma_total_size_grows(tensors.drop_last(), i - 1);
            lemma_size_not_negative(tensors.last());
        }
    } else {
        lemma_total_size_grows(tensors.drop_last(), i);
        assert(tensors.drop_last().take(i) =~= tensors.take(i));
        lemma_size_not_negative(tensors.last());
    }
}

/// A tensor does not take less than nothing.
pub proof fn lemma_size_not_negative(t: TensorView)
    ensures
        t.size() matches Some(n) ==> n >= 0,
{
    if let Some(l) = t.dtype.layout() {
        crate::model::ggml::lemma_known_types(t.dtype);
        let q = t.elems() as int / l.elems as int;
        lemma_div_pos_is_pos(t.elems() as int, l.elems as int);
        assert(q * l.bytes >= 0) by (nonlinear_arith)
            requires
                q >= 0,
                l.bytes >= 0,
        ;
    }
}

impl TensorView {
    /// The bytes that the tensor takes; nothing where that is not known.
    pub open spec fn known_size(self) -> int {
        match self.size() {
            Some(n) => n,
            None => 0,
        }
    }
}

/// One tensor of a directory takes no more than all of them together.
pub proof fn lemma_one_of_total(tensors: Seq<TensorView>, i: int)
    requires
        0 <= i < tensors.len(),
    ensures
        tensors[i].known_size() <= total_size(tensors),
    decreases tensors.len(),
{
    let last = tensors.len() - 1;
    lemma_size_not_negative(tensors[last]);
    lemma_total_size_grows(tensors, last);
    assert(tensors.take(last) =~= tensors.drop_last());
    if i != last {
        lemma_one_of_total(tensors.drop_last(), i);
    }
}

/// Two tensors of a directory take no more than all of them together.
pub proof fn lemma_two_of_total(tensors: Seq<TensorView>, i: int, j: int)
    requires
        0 <= i < tensors.len(),
        0 <= j < tensors.len(),
        i != j,
    ensures
        tensors[i].known_size() + tensors[j].known_size() <= total_size(tensors),
    decreases tensors.len(),
{
    let last = tensors.len() - 1;
    lemma_size_not_negative(tensors[last]);
    if i == last {
        lemma_one_of_total(tensors.drop_last(), j);
    } else if j == last {
        lemma_one_of_total(tensors.drop_last(), i);
    } else {
        lemma_two_of_total(tensors.drop_last(), i, j);
    }
}

/// Three tensors of a directory take no more than all of them together.
pub proof fn lemma_three_of_total(tensors: Seq<TensorView>, i: int, j: int, k: int)
    requires
        0 <= i < tensors.len(),
        0 <= j < tensors.len(),
        0 <= k < tensors.len(),
        i != j,
        i != k,
        j != k,
    ensures
        tensors[i].known_size() + tensors[j].known_size() + tensors[k].known_size()
            <= total_size(tensors),
        tensors[i].known_size() + tensors[j].known_size() <= total_size(tensors),
        tensors[i].known_size() <= total_size(tensors),
    decreases tensors.len(),
{
    let last = tensors.len() - 1;
    lemma_size_not_negative(tensors[last]);
    lemma_one_of_total(tensors, i);
    lemma_two_of_total(tensors, i, j);
    if i == last {
        lemma_two_of_total(tensors.drop_last(), j, k);
    } else if j == last {
        lemma_two_of_total(tensors.drop_last(), i, k);
    } else if k == last {
        lemma_two_of_total(tensors.drop_last(), i, j);
    } else {
        lemma_three_of_total(tensors.drop_last(), i, j, k);
    }
}

impl TensorInfo {
    /// Total number of weights.
    pub fn n_elems(&self) -> (r: u64)
        requires
            dims_fit(self@.dims),
        ensures
            r == self@.elems(),
    {
        let mut n: u64 = 1;
        let mut i: usize = 0;
        while i < self.dims.len()
            invariant
                dims_fit(self.dims@),
                i <= self.dims@.len(),
                n == product(self.dims@.take(i as int)),
            decreases self.dims@.len() - i,
        {
            assert(self.dims@.take(i + 1).drop_last() =~= self.dims@.take(i as int));
            assert(product(self.dims@.take(i + 1)) <= u64::MAX);
            n = n * self.dims[i];
            i += 1;
        }
        assert(self.dims@.take(i as int) =~= self.dims@);
        n
    }

    /// Total number of weights, or `None` where multiplying the dimensions exceeds 64 bits.
    pub fn checked_n_elems(&self) -> (r: Option<u64>)
        ensures
            match r {
                Some(n) => dims_fit(self@.dims) && n == self@.elems(),
                None => !dims_fit(self@.dims),
            },
    {
        let mut n: u64 = 1;
        let mut i: usize = 0;
        while i < self.dims.len()
            invariant
                i <= self.dims@.len(),
                n == product(self.dims@.take(i as int)),
                forall|k: int| 0 <= k <= i ==> product(#[trigger] self.dims@.take(k)) <= u64::MAX,
            decreases self.dims@.len() - i,
        {
            assert(self.dims@.take(i + 1).drop_last() =~= self.dims@.take(i as int));
            match n.checked_mul(self.dims[i]) {
                Some(m) => {
                    n = m;
                },
                None => {
                    assert(product(self.dims@.take(i + 1)) > u64::MAX);
                    return None;
                },
            }
            i += 1;
        }
        assert(self.dims@.take(i as int) =~= self.dims@);
        Some(n)
    }

    /// Total size in bytes, or `None` if the dtype is unknown or the shape does not
    /// divide into whole quantization blocks.
    pub fn size_bytes(&self) -> (r: Option<u64>)
        requires
            dims_fit(self@.dims),
            self@.size() matches Some(n) ==> n <= u64::MAX,
        ensures
            match r {
                Some(n) => self@.size() == Some(n as int),
                None => self@.size() is None,
            },
    {
        self.dtype.bytes_for(self.n_elems())
    }

    /// Whether the number of weights and the end of the tensor stay within 64 bits.
    fn is_sized(&self, data_offset: u64) -> (r: bool)
        ensures
            r == self@.sized(data_offset),
    {
        let n = match self.checked_n_elems() {
            Some(n) => n,
            None => return false,
        };
        let start = match data_offset.checked_add(self.rel_offset) {
            Some(start) => start,
            None => return false,
        };
        match self.dtype.checked_bytes_for(n) {
            Some(size) => start.checked_add(size).is_some(),
            None => {
                // Either there is no size, or it exceeds 64 bits.
                match self.dtype.block_layout() {
                    Some(layout) => n % layout.elems != 0,
                    None => true,
                }
            },
        }
    }
}

impl Gguf {
    /// Parse the directory at the front of a GGUF file.
    ///
    /// `bytes` is the file, or as much of its front as is at hand.
    pub fn parse(bytes: &[u8]) -> (r: Result<Gguf, GgufError>)
        requires
            bytes@.len() <= isize::MAX,
        ensures
            match r {
                Ok(g) => directory(bytes@) == Ok::<GgufView, GgufError>(g@),
                Err(e) => directory(bytes@) == Err::<GgufView, GgufError>(e),
            },
    {
        let (magic, p1) = match read_uint(bytes, 0, 4) {
            Ok((v, next)) => (v as u32, next),
            Err(e) => return Err(e),
        };
        if magic != MAGIC {
            return Err(GgufError::BadMagic(magic));
        }
        let (version, p2) = match read_uint(bytes, p1, 4) {
            Ok((v, next)) => (v as u32, next),
            Err(e) => return Err(e),
        };
        if !(2 <= version && version <= 3) {
            return Err(GgufError::BadVersion(version));
        }
        let (tensor_count, p3) = match read_uint(bytes, p2, 8) {
            Ok(x) => x,
            Err(e) => return Err(e),
        };
        if tensor_count > MAX_TENSORS {
            return Err(
                GgufError::Implausible {
                    what: "tensor count",
                    n: tensor_count,
                    limit: MAX_TENSORS,
                },
            );
        }
        let (kv_count, p4) = match read_uint(bytes, p3, 8) {
            Ok(x) => x,
            Err(e) => return Err(e),
        };
        if kv_count > MAX_KV {
            return Err(
                GgufError::Implausible { what: "metadata count", n: kv_count, limit: MAX_KV },
            );
        }
        let (metadata, p5) = match read_entries(bytes, kv_count, p4) {
            Ok(x) => x,
            Err(e) => return Err(e),
        };
        let (tensors, end) = match read_tensors(bytes, tensor_count, p5) {
            Ok(x) => x,
            Err(e) => return Err(e),
        };
        // Tensor data starts at the next `general.alignment` boundary after the directory.
        let stated = match metadata.get("general.alignment") {
            Some(v) => v.as_u64(),
            None => None,
        };
        let alignment = match stated {
            Some(a) => if is_power_of_two(a) {
                a
            } else {
                DEFAULT_ALIGNMENT
            },
            None => DEFAULT_ALIGNMENT,
        };
        proof {
            lemma_default_alignment();
        }
        let data_offset = align_up(end as u64, alignment);
        Ok(Gguf { version, metadata, tensors, data_offset })
    }

    /// Absolute file offset of a tensor's payload.
    pub fn absolute_offset(&self, t: &TensorInfo) -> (r: u64)
        requires
            self.data_offset + t.rel_offset <= u64::MAX,
        ensures
            r == self.data_offset + t.rel_offset,
    {
        self.data_offset + t.rel_offset
    }

    /// Look up a tensor by exact name.
    pub fn tensor(&self, name: &str) -> (r: Option<&TensorInfo>)
        ensures
            match r {
                Some(t) => self@.find(name@) == Some(t@),
                None => self@.find(name@) is None,
            },
    {
        let wanted = name.to_owned();
        let ghost all = tensors_view(self.tensors@);
        let mut i: usize = 0;
        assert(all.skip(0) =~= all);
        while i < self.tensors.len()
            invariant
                wanted@ == name@,
                all == tensors_view(self.tensors@),
                i <= self.tensors@.len(),
                find_tensor(all, name@) == find_tensor(all.skip(i as int), name@),
            decreases self.tensors@.len() - i,
        {
            assert(all.skip(i as int).first() == self.tensors@[i as int]@);
            assert(all.skip(i as int).drop_first() =~= all.skip(i + 1));
            if self.tensors[i].name == wanted {
                return Some(&self.tensors[i]);
            }
            i += 1;
        }
        None
    }

    /// The model architecture string, e.g. `qwen3moe`.
    pub fn architecture(&self) -> (r: Option<&str>)
        ensures
            match r {
                Some(s) => self@.arch() == Some(s@),
                None => self@.arch() is None,
            },
    {
        match self.metadata.get("general.architecture") {
            Some(v) => v.as_str(),
            None => None,
        }
    }

    /// Read an architecture-scoped metadata integer, e.g. `expert_count` resolves to
    /// `qwen3moe.expert_count`.
    pub fn arch_u64(&self, suffix: &str) -> (r: Option<u64>)
        ensures
            r == self@.arch_uint(suffix@),
    {
        match self.architecture() {
            Some(arch) => {
                let mut key = String::from_str(arch);
                key.append(".");
                key.append(suffix);
                match self.metadata.get(key.as_str()) {
                    Some(v) => v.as_u64(),
                    None => None,
                }
            },
            None => None,
        }
    }

    /// Total payload bytes across all tensors whose size we can compute.
    pub fn total_tensor_bytes(&self) -> (r: u64)
        requires
            forall|i: int| 0 <= i < self@.tensors.len() ==> dims_fit(
                (#[trigger] self@.tensors[i]).dims,
            ),
            total_size(self@.tensors) <= u64::MAX,
        ensures
            r == total_size(self@.tensors),
    {
        let ghost all = self@.tensors;
        let mut sum: u64 = 0;
        let mut i: usize = 0;
        while i < self.tensors.len()
            invariant
                all == tensors_view(self.tensors@),
                i <= self.tensors@.len(),
                forall|i: int| 0 <= i < all.len() ==> dims_fit((#[trigger] all[i]).dims),
                total_size(all) <= u64::MAX,
                sum == total_size(all.take(i as int)),
            decreases self.tensors@.len() - i,
        {
            proof {
                assert(all[i as int] == self.tensors@[i as int]@);
                lemma_total_size_grows(all, i + 1);
                assert(all.take(i + 1).drop_last() =~= all.take(i as int));
                assert(all.take(i + 1).last() == all[i as int]);
                lemma_total_size_grows(all, i as int);
                lemma_size_not_negative(all[i as int]);
            }
            match self.tensors[i].size_bytes() {
                Some(n) => {
                    sum = sum + n;
                },
                None => {},
            }
            i += 1;
        }
        assert(all.take(i as int) =~= all);
        sum
    }

    /// Whether every tensor's size and end, and the sum of the sizes, stay within 64 bits.
    ///
    /// A corrupt directory can claim dimensions whose product does not; nothing can be
    /// computed of such a model.
    pub fn is_sized(&self) -> (r: bool)
        ensures
            r == self@.sized(),
    {
        let ghost all = self@.tensors;
        let mut sum: u64 = 0;
        let mut i: usize = 0;
        while i < self.tensors.len()
            invariant
                all == tensors_view(self.tensors@),
                i <= self.tensors@.len(),
                forall|k: int| 0 <= k < i ==> (#[trigger] all[k]).sized(self.data_offset),
                sum == total_size(all.take(i as int)),
            decreases self.tensors@.len() - i,
        {
            proof {
                assert(all[i as int] == self.tensors@[i as int]@);
                lemma_total_size_grows(all, i + 1);
                assert(all.take(i + 1).drop_last() =~= all.take(i as int));
                assert(all.take(i + 1).last() == all[i as int]);
            }
            if !self.tensors[i].is_sized(self.data_offset) {
                return false;
            }
            match self.tensors[i].size_bytes() {
                Some(n) => {
                    match sum.checked_add(n) {
                        Some(m) => {
                            sum = m;
                        },
                        None => {
                            return false;
                        },
                    }
                },
                None => {},
            }
            i += 1;
        }
        assert(all.take(i as int) =~= all);
        true
    }

    /// Where the directory ends and payload begins.
    ///
    /// Exposed so callers can prove to themselves that opening a file did not fault in
    /// any weights.
    pub fn data_region_start(&self) -> (r: u64)
        ensures
            r == self.data_offset,
    {
        self.data_offset
    }
}

proof fn lemma_default_alignment()
    ensures
        is_pow2(DEFAULT_ALIGNMENT as int),
{
    reveal_with_fuel(is_pow2, 7);
}

// ---------------------------------------------------------------------------
// What holds of every directory

/// What a value takes lies inside the file and is at least one byte.
pub proof fn lemma_value_inside(b: Seq<u8>, ty: u32, pos: int)
    requires
        0 <= pos <= b.len(),
    ensures
        value_at(b, ty, pos) matches Ok((_, next)) ==> pos < next <= b.len(),
    decreases b.len() - pos, 0nat,
{
    if ty == 9 {
        if let Ok((elem, at)) = uint_at(b, pos, 4) {
            if let Ok((n, first)) = uint_at(b, at, 8) {
                lemma_items_inside(b, elem as u32, n, first, Seq::empty());
            }
        }
    }
}

/// What a row of values takes lies inside the file.
proof fn lemma_items_inside(b: Seq<u8>, ty: u32, n: nat, pos: int, done: Seq<ValueView>)
    requires
        0 <= pos <= b.len(),
    ensures
        items_at(b, ty, n, pos, done) matches Ok((_, next)) ==> pos <= next <= b.len(),
    decreases b.len() - pos, n,
{
    if n > 0 {
        lemma_value_inside(b, ty, pos);
        if let Ok((v, next)) = value_at(b, ty, pos) {
            lemma_items_inside(b, ty, (n - 1) as nat, next, done.push(v));
        }
    }
}

/// An array of `n` values, once read, holds `n` values.
pub proof fn lemma_items_counted(b: Seq<u8>, ty: u32, n: nat, pos: int, done: Seq<ValueView>)
    requires
        0 <= pos <= b.len(),
    ensures
        items_at(b, ty, n, pos, done) matches Ok((items, _)) ==> items.len() == done.len() + n,
    decreases b.len() - pos, n,
{
    if n > 0 {
        lemma_value_inside(b, ty, pos);
        if let Ok((v, next)) = value_at(b, ty, pos) {
            lemma_items_counted(b, ty, (n - 1) as nat, next, done.push(v));
        }
    }
}

proof fn lemma_entries_inside(b: Seq<u8>, n: nat, pos: int, done: Map<Seq<char>, ValueView>)
    requires
        0 <= pos <= b.len(),
    ensures
        entries_at(b, n, pos, done) matches Ok((_, next)) ==> pos <= next <= b.len(),
    decreases n,
{
    if n > 0 {
        if let Ok((key, at)) = string_at(b, pos) {
            if let Ok((ty, first)) = uint_at(b, at, 4) {
                lemma_value_inside(b, ty as u32, first);
            }
        }
        if let Ok(((key, v), next)) = entry_at(b, pos) {
            lemma_entries_inside(b, (n - 1) as nat, next, done.insert(key, v));
        }
    }
}

proof fn lemma_dims_inside(b: Seq<u8>, n: nat, pos: int, done: Seq<u64>)
    requires
        0 <= pos <= b.len(),
    ensures
        dims_at(b, n, pos, done) matches Ok((_, next)) ==> pos <= next <= b.len(),
    decreases n,
{
    if n > 0 {
        if let Ok((d, next)) = uint_at(b, pos, 8) {
            lemma_dims_inside(b, (n - 1) as nat, next, done.push(d as u64));
        }
    }
}

proof fn lemma_tensor_inside(b: Seq<u8>, pos: int)
    requires
        0 <= pos <= b.len(),
    ensures
        tensor_at(b, pos) matches Ok((_, next)) ==> pos <= next <= b.len(),
{
    if let Ok((name, p1)) = string_at(b, pos) {
        if let Ok((rank, p2)) = uint_at(b, p1, 4) {
            lemma_dims_inside(b, rank, p2, Seq::empty());
        }
    }
}

proof fn lemma_tensors_inside(b: Seq<u8>, n: nat, pos: int, done: Seq<TensorView>)
    requires
        0 <= pos <= b.len(),
    ensures
        tensors_at(b, n, pos, done) matches Ok((_, next)) ==> pos <= next <= b.len(),
    decreases n,
{
    if n > 0 {
        lemma_tensor_inside(b, pos);
        if let Ok((t, next)) = tensor_at(b, pos) {
            lemma_tensors_inside(b, (n - 1) as nat, next, done.push(t));
        }
    }
}

/// The tensor data of a parsed file starts on the boundary that the metadata asks for, less
/// than one step beyond the end of the front it was read from.
pub proof fn lemma_data_is_aligned(b: Seq<u8>, g: GgufView)
    requires
        b.len() <= i64::MAX,
        directory(b) == Ok::<GgufView, GgufError>(g),
    ensures
        is_pow2(alignment(g.metadata) as int),
        g.data_offset % alignment(g.metadata) == 0,
        24 <= g.data_offset < b.len() + alignment(g.metadata),
{
    lemma_default_alignment();
    let tensors = uint_at(b, 8, 8)->Ok_0.0;
    let kvs = uint_at(b, 16, 8)->Ok_0.0;
    lemma_entries_inside(b, kvs, 24, Map::empty());
    let (metadata, p) = entries_at(b, kvs, 24, Map::empty())->Ok_0;
    lemma_tensors_inside(b, tensors, p, Seq::empty());
    let end = tensors_at(b, tensors, p, Seq::empty())->Ok_0.1;
    lemma_round_up_bound(end, alignment(metadata) as int);
    lemma_round_up(end, alignment(metadata) as int);
}

/// How reading a longer front of the same file relates to reading its first `n` bytes: the
/// result is the same, unless it was that more than `n` bytes are needed; and then it is the
/// same as long as the `m` bytes of the longer front do not reach that far.
pub open spec fn extends<T>(
    short: Result<T, GgufError>,
    long: Result<T, GgufError>,
    n: nat,
    m: nat,
) -> bool {
    match short {
        Err(GgufError::Truncated { needed }) => {
            &&& needed > n
            &&& needed > m ==> long == short
        },
        _ => long == short,
    }
}

proof fn lemma_bytes_extend(b: Seq<u8>, more: Seq<u8>, pos: int, n: int)
    requires
        0 <= pos <= b.len(),
        0 <= n <= MAX_STRING,
        b.len() + more.len() <= i64::MAX,
    ensures
        extends(bytes_at(b, pos, n), bytes_at(b + more, pos, n), b.len(), (b + more).len()),
        extends(uint_at(b, pos, n), uint_at(b + more, pos, n), b.len(), (b + more).len()),
{
    if pos + n <= b.len() {
        assert((b + more).subrange(pos, pos + n) =~= b.subrange(pos, pos + n));
    }
}

proof fn lemma_string_extends(b: Seq<u8>, more: Seq<u8>, pos: int)
    requires
        0 <= pos <= b.len(),
        b.len() + more.len() <= i64::MAX,
    ensures
        extends(string_at(b, pos), string_at(b + more, pos), b.len(), (b + more).len()),
{
    lemma_bytes_extend(b, more, pos, 8);
    if let Ok((len, at)) = uint_at(b, pos, 8) {
        if len <= MAX_STRING {
            lemma_bytes_extend(b, more, at, len as int);
        }
    }
}

proof fn lemma_value_extends(b: Seq<u8>, more: Seq<u8>, ty: u32, pos: int)
    requires
        0 <= pos <= b.len(),
        b.len() + more.len() <= i64::MAX,
    ensures
        extends(value_at(b, ty, pos), value_at(b + more, ty, pos), b.len(), (b + more).len()),
    decreases b.len() - pos, 0nat,
{
    lemma_bytes_extend(b, more, pos, 1);
    lemma_bytes_extend(b, more, pos, 2);
    lemma_bytes_extend(b, more, pos, 4);
    lemma_bytes_extend(b, more, pos, 8);
    lemma_string_extends(b, more, pos);
    if ty == 9 {
        if let Ok((elem, at)) = uint_at(b, pos, 4) {
            lemma_bytes_extend(b, more, at, 8);
            if let Ok((n, first)) = uint_at(b, at, 8) {
                lemma_items_extend(b, more, elem as u32, n, first, Seq::empty());
            }
        }
    }
}

proof fn lemma_items_extend(
    b: Seq<u8>,
    more: Seq<u8>,
    ty: u32,
    n: nat,
    pos: int,
    done: Seq<ValueView>,
)
    requires
        0 <= pos <= b.len(),
        b.len() + more.len() <= i64::MAX,
    ensures
        extends(
            items_at(b, ty, n, pos, done),
            items_at(b + more, ty, n, pos, done),
            b.len(),
            (b + more).len(),
        ),
    decreases b.len() - pos, n,
{
    if n > 0 {
        lemma_value_extends(b, more, ty, pos);
        lemma_value_inside(b, ty, pos);
        if let Ok((v, next)) = value_at(b, ty, pos) {
            lemma_items_extend(b, more, ty, (n - 1) as nat, next, done.push(v));
        }
    }
}

proof fn lemma_entries_extend(
    b: Seq<u8>,
    more: Seq<u8>,
    n: nat,
    pos: int,
    done: Map<Seq<char>, ValueView>,
)
    requires
        0 <= pos <= b.len(),
        b.len() + more.len() <= i64::MAX,
    ensures
        extends(
            entries_at(b, n, pos, done),
            entries_at(b + more, n, pos, done),
            b.len(),
            (b + more).len(),
        ),
    decreases n,
{
    if n > 0 {
        lemma_string_extends(b, more, pos);
        if let Ok((key, at)) = string_at(b, pos) {
            lemma_bytes_extend(b, more, at, 4);
            if let Ok((ty, first)) = uint_at(b, at, 4) {
                lemma_value_extends(b, more, ty as u32, first);
                lemma_value_inside(b, ty as u32, first);
            }
        }
        if let Ok(((key, v), next)) = entry_at(b, pos) {
            lemma_entries_extend(b, more, (n - 1) as nat, next, done.insert(key, v));
        }
    }
}

proof fn lemma_dims_extend(b: Seq<u8>, more: Seq<u8>, n: nat, pos: int, done: Seq<u64>)
    requires
        0 <= pos <= b.len(),
        b.len() + more.len() <= i64::MAX,
    ensures
        extends(
            dims_at(b, n, pos, done),
            dims_at(b + more, n, pos, done),
            b.len(),
            (b + more).len(),
        ),
    decreases n,
{
    if n > 0 {
        lemma_bytes_extend(b, more, pos, 8);
        if let Ok((d, next)) = uint_at(b, pos, 8) {
            lemma_dims_extend(b, more, (n - 1) as nat, next, done.push(d as u64));
        }
    }
}

proof fn lemma_tensor_extends(b: Seq<u8>, more: Seq<u8>, pos: int)
    requires
        0 <= pos <= b.len(),
        b.len() + more.len() <= i64::MAX,
    ensures
        extends(tensor_at(b, pos), tensor_at(b + more, pos), b.len(), (b + more).len()),
{
    lemma_string_extends(b, more, pos);
    if let Ok((name, p1)) = string_at(b, pos) {
        lemma_bytes_extend(b, more, p1, 4);
        if let Ok((rank, p2)) = uint_at(b, p1, 4) {
            lemma_dims_extend(b, more, rank, p2, Seq::empty());
            lemma_dims_inside(b, rank, p2, Seq::empty());
            if let Ok((dims, p3)) = dims_at(b, rank, p2, Seq::empty()) {
                lemma_bytes_extend(b, more, p3, 4);
                if let Ok((ty, p4)) = uint_at(b, p3, 4) {
                    lemma_bytes_extend(b, more, p4, 8);
                }
            }
        }
    }
}

proof fn lemma_tensors_extend(b: Seq<u8>, more: Seq<u8>, n: nat, pos: int, done: Seq<TensorView>)
    requires
        0 <= pos <= b.len(),
        b.len() + more.len() <= i64::MAX,
    ensures
        extends(
            tensors_at(b, n, pos, done),
            tensors_at(b + more, n, pos, done),
            b.len(),
            (b + more).len(),
        ),
    decreases n,
{
    if n > 0 {
        lemma_tensor_extends(b, more, pos);
        lemma_tensor_inside(b, pos);
        if let Ok((t, next)) = tensor_at(b, pos) {
            lemma_tensors_extend(b, more, (n - 1) as nat, next, done.push(t));
        }
    }
}

/// A front of a file is enough: once a directory has been read, or refused for anything but
/// its length, more bytes change nothing. And a front that is too short says how far to go
/// on: beyond what it holds, and any front that does not reach that far says the same.
pub proof fn lemma_front_is_enough(b: Seq<u8>, more: Seq<u8>)
    requires
        b.len() + more.len() <= i64::MAX,
    ensures
        extends(directory(b), directory(b + more), b.len(), (b + more).len()),
{
    lemma_bytes_extend(b, more, 0, 4);
    if let Ok((magic, p1)) = uint_at(b, 0, 4) {
        lemma_bytes_extend(b, more, p1, 4);
        if let Ok((version, p2)) = uint_at(b, p1, 4) {
            lemma_bytes_extend(b, more, p2, 8);
            if let Ok((tensors, p3)) = uint_at(b, p2, 8) {
                lemma_bytes_extend(b, more, p3, 8);
                if let Ok((kvs, p4)) = uint_at(b, p3, 8) {
                    lemma_entries_extend(b, more, kvs, p4, Map::empty());
                    lemma_entries_inside(b, kvs, p4, Map::empty());
                    if let Ok((metadata, p)) = entries_at(b, kvs, p4, Map::empty()) {
                        lemma_tensors_extend(b, more, tensors, p, Seq::empty());
                    }
                }
            }
        }
    }
}

// ---------------------------------------------------------------------------
// The format from the writer's side

/// The `n` lowest bytes of a number, the least significant first.
pub open spec fn low_bytes(v: nat, n: nat) -> Seq<u8>
    decreases n,
{
    if n == 0 {
        Seq::empty()
    } else {
        seq![(v % 256) as u8] + low_bytes(v / 256, (n - 1) as nat)
    }
}

/// A string as it is written: the number of its bytes, then its bytes in UTF-8.
pub open spec fn string_bytes(s: Seq<char>) -> Seq<u8> {
    low_bytes(vstd::utf8::encode_utf8(s).len(), 8) + vstd::utf8::encode_utf8(s)
}

/// The number of a value's type.
pub open spec fn type_number(v: ValueView) -> u32 {
    match v {
        ValueView::U8(_) => 0,
        ValueView::I8(_) => 1,
        ValueView::U16(_) => 2,
        ValueView::I16(_) => 3,
        ValueView::U32(_) => 4,
        ValueView::I32(_) => 5,
        ValueView::F32(_) => 6,
        ValueView::Bool(_) => 7,
        ValueView::String(_) => 8,
        ValueView::Array(_) => 9,
        ValueView::U64(_) => 10,
        ValueView::I64(_) => 11,
        ValueView::F64(_) => 12,
    }
}

/// The type of the items of an array; that of an empty one does not matter.
pub open spec fn item_type(items: Seq<ValueView>) -> u32 {
    if items.len() == 0 {
        0
    } else {
        type_number(items[0])
    }
}

/// A signed number in two's complement, where `span` is the number of values that its width can
/// hold.
pub open spec fn wrapped(v: int, span: nat) -> nat {
    if v >= 0 {
        v as nat
    } else {
        (v + span) as nat
    }
}

/// A value as it is written, without its type.
pub open spec fn value_bytes(v: ValueView) -> Seq<u8>
    decreases v,
{
    match v {
        ValueView::U8(x) => low_bytes(x as nat, 1),
        ValueView::I8(x) => low_bytes(wrapped(x as int, 0x100), 1),
        ValueView::U16(x) => low_bytes(x as nat, 2),
        ValueView::I16(x) => low_bytes(wrapped(x as int, 0x1_0000), 2),
        ValueView::U32(x) => low_bytes(x as nat, 4),
        ValueView::I32(x) => low_bytes(wrapped(x as int, 0x1_0000_0000), 4),
        ValueView::F32(x) => low_bytes(x as nat, 4),
        ValueView::Bool(x) => low_bytes(
            if x {
                1
            } else {
                0
            },
            1,
        ),
        ValueView::String(s) => string_bytes(s),
        ValueView::Array(items) => low_bytes(item_type(items) as nat, 4) + low_bytes(items.len(), 8)
            + items_bytes(items),
        ValueView::U64(x) => low_bytes(x as nat, 8),
        ValueView::I64(x) => low_bytes(wrapped(x as int, 0x1_0000_0000_0000_0000), 8),
        ValueView::F64(x) => low_bytes(x as nat, 8),
    }
}

/// The items of an array as they are written, one behind the other.
pub open spec fn items_bytes(items: Seq<ValueView>) -> Seq<u8>
    decreases items,
{
    if items.len() == 0 {
        Seq::empty()
    } else {
        value_bytes(items[0]) + items_bytes(items.drop_first())
    }
}

/// A string is short enough to be read.
pub open spec fn readable_string(s: Seq<char>) -> bool {
    vstd::utf8::encode_utf8(s).len() <= 64 * 1024 * 1024
}

/// A value can be written and read: no string and no array in it is too long, and the items of
/// an array are of one type.
pub open spec fn readable(v: ValueView) -> bool
    decreases v,
{
    match v {
        ValueView::String(s) => readable_string(s),
        ValueView::Array(items) => {
            &&& items.len() <= 64 * 1024 * 1024
            &&& forall|i: int|
                0 <= i < items.len() ==> type_number(#[trigger] items[i]) == item_type(items)
            &&& forall|i: int| 0 <= i < items.len() ==> readable(#[trigger] items[i])
        },
        _ => true,
    }
}

/// A metadata entry as it is written: its key, the type of its value and its value.
pub open spec fn entry_bytes(entry: (Seq<char>, ValueView)) -> Seq<u8> {
    string_bytes(entry.0) + low_bytes(type_number(entry.1) as nat, 4) + value_bytes(entry.1)
}

/// Metadata entries as they are written, one behind the other.
pub open spec fn entries_bytes(entries: Seq<(Seq<char>, ValueView)>) -> Seq<u8>
    decreases entries.len(),
{
    if entries.len() == 0 {
        Seq::empty()
    } else {
        entry_bytes(entries[0]) + entries_bytes(entries.drop_first())
    }
}

/// Dimensions as they are written, one behind the other.
pub open spec fn dims_bytes(dims: Seq<u64>) -> Seq<u8>
    decreases dims.len(),
{
    if dims.len() == 0 {
        Seq::empty()
    } else {
        low_bytes(dims[0] as nat, 8) + dims_bytes(dims.drop_first())
    }
}

/// A directory entry as it is written: the tensor's name, its dimensions with their number
/// before them, its type and its offset.
pub open spec fn tensor_bytes(t: TensorView) -> Seq<u8> {
    string_bytes(t.name) + low_bytes(t.dims.len(), 4) + dims_bytes(t.dims) + low_bytes(
        t.dtype.0 as nat,
        4,
    ) + low_bytes(t.rel_offset as nat, 8)
}

/// Directory entries as they are written, one behind the other.
pub open spec fn tensors_bytes(tensors: Seq<TensorView>) -> Seq<u8>
    decreases tensors.len(),
{
    if tensors.len() == 0 {
        Seq::empty()
    } else {
        tensor_bytes(tensors[0]) + tensors_bytes(tensors.drop_first())
    }
}

/// The front of a file as it is written: `GGUF`, the version, how many tensors and entries there
/// are, the entries and the tensors.
pub open spec fn front_bytes(
    version: u32,
    entries: Seq<(Seq<char>, ValueView)>,
    tensors: Seq<TensorView>,
) -> Seq<u8> {
    seq![0x47u8, 0x47u8, 0x55u8, 0x46u8] + low_bytes(version as nat, 4) + low_bytes(
        tensors.len(),
        8,
    ) + low_bytes(entries.len(), 8) + entries_bytes(entries) + tensors_bytes(tensors)
}

/// Bytes stand in a file from an offset on.
pub open spec fn stands_at(b: Seq<u8>, pos: int, s: Seq<u8>) -> bool {
    &&& 0 <= pos
    &&& pos + s.len() <= b.len()
    &&& b.subrange(pos, pos + s.len()) == s
}

proof fn lemma_both_stand(b: Seq<u8>, pos: int, s: Seq<u8>, t: Seq<u8>)
    requires
        stands_at(b, pos, s + t),
    ensures
        stands_at(b, pos, s),
        stands_at(b, pos + s.len(), t),
{
    let all = s + t;
    assert(b.subrange(pos, pos + s.len()) =~= s) by {
        assert forall|i: int| 0 <= i < s.len() implies b[pos + i] == s[i] by {
            assert(b.subrange(pos, pos + all.len())[i] == all[i]);
        }
    }
    assert(b.subrange(pos + s.len(), pos + s.len() + t.len()) =~= t) by {
        assert forall|i: int| 0 <= i < t.len() implies b[pos + s.len() + i] == t[i] by {
            assert(b.subrange(pos, pos + all.len())[s.len() + i] == all[s.len() + i]);
        }
    }
}

proof fn lemma_low_bytes(v: nat, n: nat)
    requires
        n <= 8,
        v < byte_span(n),
    ensures
        low_bytes(v, n).len() == n,
        little_endian(low_bytes(v, n)) == v,
    decreases n,
{
    if n > 0 {
        let rest = low_bytes(v / 256, (n - 1) as nat);
        lemma_low_bytes(v / 256, (n - 1) as nat);
        assert(low_bytes(v, n).drop_first() =~= rest);
        assert(low_bytes(v, n).first() == (v % 256) as u8);
    }
}

proof fn lemma_reads_uint(b: Seq<u8>, pos: int, v: nat, n: nat)
    requires
        n <= 8,
        v < byte_span(n),
        stands_at(b, pos, low_bytes(v, n)),
    ensures
        low_bytes(v, n).len() == n,
        uint_at(b, pos, n as int) == Ok::<(nat, int), GgufError>((v, pos + n)),
{
    lemma_low_bytes(v, n);
}

proof fn lemma_reads_string(b: Seq<u8>, pos: int, s: Seq<char>)
    requires
        readable_string(s),
        stands_at(b, pos, string_bytes(s)),
    ensures
        string_bytes(s).len() >= 8,
        string_at(b, pos) == Ok::<(Seq<char>, int), GgufError>((s, pos + string_bytes(s).len())),
{
    let bytes = vstd::utf8::encode_utf8(s);
    lemma_both_stand(b, pos, low_bytes(bytes.len(), 8), bytes);
    lemma_reads_uint(b, pos, bytes.len(), 8);
    vstd::utf8::encode_utf8_valid_utf8(s);
    vstd::utf8::encode_utf8_decode_utf8(s);
}

proof fn lemma_reads_value(b: Seq<u8>, pos: int, v: ValueView)
    requires
        readable(v),
        stands_at(b, pos, value_bytes(v)),
    ensures
        value_bytes(v).len() > 0,
        value_at(b, type_number(v), pos) == Ok::<(ValueView, int), GgufError>(
            (v, pos + value_bytes(v).len()),
        ),
    decreases v,
{
    match v {
        ValueView::U8(x) => lemma_reads_uint(b, pos, x as nat, 1),
        ValueView::I8(x) => lemma_reads_uint(b, pos, wrapped(x as int, 0x100), 1),
        ValueView::U16(x) => lemma_reads_uint(b, pos, x as nat, 2),
        ValueView::I16(x) => lemma_reads_uint(b, pos, wrapped(x as int, 0x1_0000), 2),
        ValueView::U32(x) => lemma_reads_uint(b, pos, x as nat, 4),
        ValueView::I32(x) => lemma_reads_uint(b, pos, wrapped(x as int, 0x1_0000_0000), 4),
        ValueView::F32(x) => lemma_reads_uint(b, pos, x as nat, 4),
        ValueView::Bool(x) => lemma_reads_uint(
            b,
            pos,
            if x {
                1
            } else {
                0
            },
            1,
        ),
        ValueView::String(s) => lemma_reads_string(b, pos, s),
        ValueView::U64(x) => lemma_reads_uint(b, pos, x as nat, 8),
        ValueView::I64(x) => lemma_reads_uint(
            b,
            pos,
            wrapped(x as int, 0x1_0000_0000_0000_0000),
            8,
        ),
        ValueView::F64(x) => lemma_reads_uint(b, pos, x as nat, 8),
        ValueView::Array(items) => {
            let ty = low_bytes(item_type(items) as nat, 4);
            let count = low_bytes(items.len(), 8);
            let rest = items_bytes(items);
            assert(ty + count + rest =~= ty + (count + rest));
            lemma_both_stand(b, pos, ty, count + rest);
            lemma_reads_uint(b, pos, item_type(items) as nat, 4);
            lemma_both_stand(b, pos + 4, count, rest);
            lemma_reads_uint(b, pos + 4, items.len(), 8);
            lemma_reads_items(b, pos + 12, items, item_type(items), Seq::empty());
            assert(Seq::<ValueView>::empty() + items =~= items);
        },
    }
}

proof fn lemma_reads_items(
    b: Seq<u8>,
    pos: int,
    items: Seq<ValueView>,
    ty: u32,
    done: Seq<ValueView>,
)
    requires
        forall|i: int| 0 <= i < items.len() ==> type_number(#[trigger] items[i]) == ty,
        forall|i: int| 0 <= i < items.len() ==> readable(#[trigger] items[i]),
        stands_at(b, pos, items_bytes(items)),
    ensures
        items_at(b, ty, items.len(), pos, done) == Ok::<(Seq<ValueView>, int), GgufError>(
            (done + items, pos + items_bytes(items).len()),
        ),
    decreases items,
{
    if items.len() == 0 {
        assert(done + items =~= done);
    } else {
        let first = value_bytes(items[0]);
        let rest = items.drop_first();
        lemma_both_stand(b, pos, first, items_bytes(rest));
        lemma_reads_value(b, pos, items[0]);
        assert forall|i: int| 0 <= i < rest.len() implies type_number(#[trigger] rest[i]) == ty
            && readable(rest[i]) by {
            assert(rest[i] == items[i + 1]);
        }
        lemma_reads_items(b, pos + first.len(), rest, ty, done.push(items[0]));
        assert(done.push(items[0]) + rest =~= done + items);
    }
}

/// The metadata that entries make: of two with one key the later one counts.
pub open spec fn with_entries(
    done: Map<Seq<char>, ValueView>,
    entries: Seq<(Seq<char>, ValueView)>,
) -> Map<Seq<char>, ValueView>
    decreases entries.len(),
{
    if entries.len() == 0 {
        done
    } else {
        with_entries(done.insert(entries[0].0, entries[0].1), entries.drop_first())
    }
}

proof fn lemma_reads_entries(
    b: Seq<u8>,
    pos: int,
    entries: Seq<(Seq<char>, ValueView)>,
    done: Map<Seq<char>, ValueView>,
)
    requires
        forall|i: int|
            0 <= i < entries.len() ==> readable_string((#[trigger] entries[i]).0) && readable(
                entries[i].1,
            ),
        stands_at(b, pos, entries_bytes(entries)),
    ensures
        entries_at(b, entries.len(), pos, done) == Ok::<
            (Map<Seq<char>, ValueView>, int),
            GgufError,
        >((with_entries(done, entries), pos + entries_bytes(entries).len())),
    decreases entries.len(),
{
    if entries.len() > 0 {
        let (key, v) = entries[0];
        let rest = entries.drop_first();
        let name = string_bytes(key);
        let ty = low_bytes(type_number(v) as nat, 4);
        let value = value_bytes(v);
        lemma_both_stand(b, pos, entry_bytes(entries[0]), entries_bytes(rest));
        assert(entry_bytes(entries[0]) =~= name + (ty + value));
        lemma_both_stand(b, pos, name, ty + value);
        lemma_reads_string(b, pos, key);
        lemma_both_stand(b, pos + name.len(), ty, value);
        lemma_reads_uint(b, pos + name.len(), type_number(v) as nat, 4);
        lemma_reads_value(b, pos + name.len() + 4, v);
        assert forall|i: int| 0 <= i < rest.len() implies readable_string((#[trigger] rest[i]).0)
            && readable(rest[i].1) by {
            assert(rest[i] == entries[i + 1]);
        }
        lemma_reads_entries(
            b,
            pos + entry_bytes(entries[0]).len(),
            rest,
            done.insert(key, v),
        );
    }
}

proof fn lemma_reads_dims(b: Seq<u8>, pos: int, dims: Seq<u64>, done: Seq<u64>)
    requires
        stands_at(b, pos, dims_bytes(dims)),
    ensures
        dims_at(b, dims.len(), pos, done) == Ok::<(Seq<u64>, int), GgufError>(
            (done + dims, pos + dims_bytes(dims).len()),
        ),
    decreases dims.len(),
{
    if dims.len() == 0 {
        assert(done + dims =~= done);
    } else {
        let rest = dims.drop_first();
        lemma_both_stand(b, pos, low_bytes(dims[0] as nat, 8), dims_bytes(rest));
        lemma_reads_uint(b, pos, dims[0] as nat, 8);
        lemma_reads_dims(b, pos + 8, rest, done.push(dims[0]));
        assert(done.push(dims[0]) + rest =~= done + dims);
    }
}

proof fn lemma_reads_tensor(b: Seq<u8>, pos: int, t: TensorView)
    requires
        readable_string(t.name),
        t.dims.len() <= 8,
        stands_at(b, pos, tensor_bytes(t)),
    ensures
        tensor_at(b, pos) == Ok::<(TensorView, int), GgufError>((t, pos + tensor_bytes(t).len())),
{
    let name = string_bytes(t.name);
    let rank = low_bytes(t.dims.len(), 4);
    let dims = dims_bytes(t.dims);
    let ty = low_bytes(t.dtype.0 as nat, 4);
    let offset = low_bytes(t.rel_offset as nat, 8);
    assert(tensor_bytes(t) =~= name + (rank + (dims + (ty + offset))));
    lemma_both_stand(b, pos, name, rank + (dims + (ty + offset)));
    lemma_reads_string(b, pos, t.name);
    let p1 = pos + name.len();
    lemma_both_stand(b, p1, rank, dims + (ty + offset));
    lemma_reads_uint(b, p1, t.dims.len(), 4);
    let p2 = p1 + 4;
    lemma_both_stand(b, p2, dims, ty + offset);
    lemma_reads_dims(b, p2, t.dims, Seq::empty());
    assert(Seq::<u64>::empty() + t.dims =~= t.dims);
    let p3 = p2 + dims.len();
    lemma_both_stand(b, p3, ty, offset);
    lemma_reads_uint(b, p3, t.dtype.0 as nat, 4);
    lemma_reads_uint(b, p3 + 4, t.rel_offset as nat, 8);
}

proof fn lemma_reads_tensors(
    b: Seq<u8>,
    pos: int,
    tensors: Seq<TensorView>,
    done: Seq<TensorView>,
)
    requires
        forall|i: int|
            0 <= i < tensors.len() ==> readable_string((#[trigger] tensors[i]).name)
                && tensors[i].dims.len() <= 8,
        stands_at(b, pos, tensors_bytes(tensors)),
    ensures
        tensors_at(b, tensors.len(), pos, done) == Ok::<(Seq<TensorView>, int), GgufError>(
            (done + tensors, pos + tensors_bytes(tensors).len()),
        ),
    decreases tensors.len(),
{
    if tensors.len() == 0 {
        assert(done + tensors =~= done);
    } else {
        let rest = tensors.drop_first();
        let first = tensor_bytes(tensors[0]);
        lemma_both_stand(b, pos, first, tensors_bytes(rest));
        lemma_reads_tensor(b, pos, tensors[0]);
        assert forall|i: int| 0 <= i < rest.len() implies readable_string((#[trigger] rest[i]).name)
            && rest[i].dims.len() <= 8 by {
            assert(rest[i] == tensors[i + 1]);
        }
        lemma_reads_tensors(b, pos + first.len(), rest, done.push(tensors[0]));
        assert(done.push(tensors[0]) + rest =~= done + tensors);
    }
}

/// The parts of a front, each where it stands.
proof fn lemma_front_stands(
    b: Seq<u8>,
    version: u32,
    entries: Seq<(Seq<char>, ValueView)>,
    tensors: Seq<TensorView>,
)
    requires
        entries.len() <= 1024 * 1024,
        tensors.len() <= 4 * 1024 * 1024,
        stands_at(b, 0, front_bytes(version, entries, tensors)),
    ensures
        uint_at(b, 0, 4) == Ok::<(nat, int), GgufError>((MAGIC as nat, 4)),
        uint_at(b, 4, 4) == Ok::<(nat, int), GgufError>((version as nat, 8)),
        uint_at(b, 8, 8) == Ok::<(nat, int), GgufError>((tensors.len(), 16)),
        uint_at(b, 16, 8) == Ok::<(nat, int), GgufError>((entries.len(), 24)),
        stands_at(b, 24, entries_bytes(entries)),
        stands_at(b, (24 + entries_bytes(entries).len()) as int, tensors_bytes(tensors)),
        front_bytes(version, entries, tensors).len() == 24 + entries_bytes(entries).len()
            + tensors_bytes(tensors).len(),
{
    let magic = seq![0x47u8, 0x47u8, 0x55u8, 0x46u8];
    let v = low_bytes(version as nat, 4);
    let nt = low_bytes(tensors.len(), 8);
    let ne = low_bytes(entries.len(), 8);
    let es = entries_bytes(entries);
    let ts = tensors_bytes(tensors);
    lemma_low_bytes(version as nat, 4);
    lemma_low_bytes(tensors.len(), 8);
    lemma_low_bytes(entries.len(), 8);
    let first = magic + v;
    let second = first + nt;
    let third = second + ne;
    let fourth = third + es;
    lemma_both_stand(b, 0, fourth, ts);
    lemma_both_stand(b, 0, third, es);
    lemma_both_stand(b, 0, second, ne);
    lemma_both_stand(b, 0, first, nt);
    lemma_both_stand(b, 0, magic, v);
    assert(magic =~= low_bytes(MAGIC as nat, 4)) by {
        reveal_with_fuel(low_bytes, 5);
    }
    lemma_reads_uint(b, 0, MAGIC as nat, 4);
    lemma_reads_uint(b, 4, version as nat, 4);
    lemma_reads_uint(b, 8, tensors.len(), 8);
    lemma_reads_uint(b, 16, entries.len(), 8);
}

/// What is written is what is read: a directory comes back with its version, its metadata and
/// its tensors in their order, whatever payload follows, and the data starts on the first
/// boundary behind it.
pub proof fn lemma_reading_gives_back_what_was_written(
    version: u32,
    entries: Seq<(Seq<char>, ValueView)>,
    tensors: Seq<TensorView>,
    payload: Seq<u8>,
)
    requires
        2 <= version <= 3,
        entries.len() <= 1024 * 1024,
        tensors.len() <= 4 * 1024 * 1024,
        forall|i: int|
            0 <= i < entries.len() ==> readable_string((#[trigger] entries[i]).0) && readable(
                entries[i].1,
            ),
        forall|i: int|
            0 <= i < tensors.len() ==> readable_string((#[trigger] tensors[i]).name)
                && tensors[i].dims.len() <= 8,
        front_bytes(version, entries, tensors).len() + payload.len() <= i64::MAX,
    ensures
        directory(front_bytes(version, entries, tensors) + payload) matches Ok(g) && {
            let end = front_bytes(version, entries, tensors).len();
            let step = alignment(g.metadata);
            &&& g.version == version
            &&& g.metadata == with_entries(Map::empty(), entries)
            &&& g.tensors == tensors
            &&& g.data_offset % step == 0
            &&& end <= g.data_offset < end + step
        },
{
    let front = front_bytes(version, entries, tensors);
    let b = front + payload;
    assert(b.subrange(0, front.len() as int) =~= front);
    lemma_front_stands(b, version, entries, tensors);
    lemma_reads_entries(b, 24, entries, Map::empty());
    let p = (24 + entries_bytes(entries).len()) as int;
    lemma_reads_tensors(b, p, tensors, Seq::empty());
    assert(Seq::<TensorView>::empty() + tensors =~= tensors);
    let m = with_entries(Map::empty(), entries);
    let end = front.len() as int;
    lemma_default_alignment();
    lemma_round_up_bound(end, alignment(m) as int);
    lemma_round_up(end, alignment(m) as int);
}

/// A key stands for the value of the last entry that has it, and a key that no entry has for
/// what it stood for before.
pub proof fn lemma_the_last_entry_counts(
    done: Map<Seq<char>, ValueView>,
    before: Seq<(Seq<char>, ValueView)>,
    key: Seq<char>,
    v: ValueView,
    after: Seq<(Seq<char>, ValueView)>,
)
    requires
        forall|i: int| 0 <= i < after.len() ==> (#[trigger] after[i]).0 != key,
    ensures
        with_entries(done, before.push((key, v)) + after).dom().contains(key),
        with_entries(done, before.push((key, v)) + after)[key] == v,
        with_entries(done, after).dom().contains(key) == done.dom().contains(key),
        done.dom().contains(key) ==> with_entries(done, after)[key] == done[key],
    decreases before.len() + after.len(),
{
    let all = before.push((key, v)) + after;
    if before.len() > 0 {
        assert(all[0] == before[0]);
        assert(all.drop_first() =~= before.drop_first().push((key, v)) + after);
        lemma_the_last_entry_counts(
            done.insert(before[0].0, before[0].1),
            before.drop_first(),
            key,
            v,
            after,
        );
    } else {
        assert(all[0] == (key, v));
        assert(all.drop_first() =~= after);
        lemma_untouched_key(done.insert(key, v), key, after);
    }
    lemma_untouched_key(done, key, after);
}

proof fn lemma_untouched_key(
    done: Map<Seq<char>, ValueView>,
    key: Seq<char>,
    after: Seq<(Seq<char>, ValueView)>,
)
    requires
        forall|i: int| 0 <= i < after.len() ==> (#[trigger] after[i]).0 != key,
    ensures
        with_entries(done, after).dom().contains(key) == done.dom().contains(key),
        done.dom().contains(key) ==> with_entries(done, after)[key] == done[key],
    decreases after.len(),
{
    if after.len() > 0 {
        let rest = after.drop_first();
        assert forall|i: int| 0 <= i < rest.len() implies (#[trigger] rest[i]).0 != key by {
            assert(rest[i] == after[i + 1]);
        }
        lemma_untouched_key(done.insert(after[0].0, after[0].1), key, rest);
    }
}

/// Data starts on the boundary that the metadata names, where that is a power of two, and on a
/// multiple of thirty-two otherwise.
pub proof fn lemma_the_boundary_is_a_power_of_two(m: Map<Seq<char>, ValueView>)
    ensures
        is_pow2(alignment(m) as int),
        m.dom().contains("general.alignment"@) ==> (m["general.alignment"@] matches ValueView::U32(
            a,
        ) ==> (is_pow2(a as int) ==> alignment(m) == a) && (!is_pow2(a as int) ==> alignment(m)
            == 32)),
        !m.dom().contains("general.alignment"@) ==> alignment(m) == 32,
{
    lemma_default_alignment();
}

/// A whole number is read whatever its width, a negative one never, and nothing else is one.
pub proof fn lemma_integers_are_read_at_any_width(v: ValueView)
    ensures
        v matches ValueView::U8(x) ==> v.uint() == Some(x as u64),
        v matches ValueView::U16(x) ==> v.uint() == Some(x as u64),
        v matches ValueView::U32(x) ==> v.uint() == Some(x as u64),
        v matches ValueView::U64(x) ==> v.uint() == Some(x),
        v matches ValueView::I8(x) ==> (x < 0 <==> v.uint() is None) && (v.uint() matches Some(n)
            ==> n == x),
        v matches ValueView::I16(x) ==> (x < 0 <==> v.uint() is None) && (v.uint() matches Some(n)
            ==> n == x),
        v matches ValueView::I32(x) ==> (x < 0 <==> v.uint() is None) && (v.uint() matches Some(n)
            ==> n == x),
        v matches ValueView::I64(x) ==> (x < 0 <==> v.uint() is None) && (v.uint() matches Some(n)
            ==> n == x),
        v is F32 || v is F64 || v is Bool || v is String || v is Array ==> v.uint() is None,
        v matches ValueView::String(s) ==> v.string() == Some(s),
        !(v is String) ==> v.string() is None,
{
}

/// A key of the architecture is the architecture's name, a dot and the rest; without an
/// architecture there are none.
pub proof fn lemma_keys_are_scoped_by_architecture(
    g: GgufView,
    arch: Seq<char>,
    suffix: Seq<char>,
)
    ensures
        g.metadata.dom().contains("general.architecture"@) && g.metadata["general.architecture"@]
            == ValueView::String(arch) ==> {
            &&& g.arch() == Some(arch)
            &&& g.metadata.dom().contains(arch + "."@ + suffix) ==> g.arch_uint(suffix)
                == g.metadata[arch + "."@ + suffix].uint()
            &&& !g.metadata.dom().contains(arch + "."@ + suffix) ==> g.arch_uint(suffix) is None
        },
        !g.metadata.dom().contains("general.architecture"@) ==> g.arch() is None && g.arch_uint(
            suffix,
        ) is None,
{
}

/// The tensor found under a name is the first that has it.
pub proof fn lemma_the_first_of_a_name_is_found(tensors: Seq<TensorView>, name: Seq<char>, i: int)
    requires
        0 <= i <= tensors.len(),
        forall|j: int| 0 <= j < i ==> (#[trigger] tensors[j]).name != name,
        i < tensors.len() ==> tensors[i].name == name,
    ensures
        find_tensor(tensors, name) == (if i < tensors.len() {
            Some(tensors[i])
        } else {
            None
        }),
    decreases tensors.len(),
{
    if tensors.len() > 0 && i > 0 {
        let rest = tensors.drop_first();
        assert(tensors.first() == tensors[0]);
        assert forall|j: int| 0 <= j < i - 1 implies (#[trigger] rest[j]).name != name by {
            assert(rest[j] == tensors[j + 1]);
        }
        if i < tensors.len() {
            assert(rest[i - 1] == tensors[i]);
        }
        lemma_the_first_of_a_name_is_found(rest, name, i - 1);
    }
}

/// The bytes of a directory are those of its parts together. A tensor counts for its weights in
/// whole blocks, and one of unknown size for nothing.
pub proof fn lemma_tensors_add_up(a: Seq<TensorView>, b: Seq<TensorView>, t: TensorView)
    ensures
        total_size(a + b) == total_size(a) + total_size(b),
        total_size(seq![t]) == t.known_size(),
        total_size(Seq::empty()) == 0,
        t.dtype.layout() is None ==> t.known_size() == 0,
    decreases b.len(),
{
    reveal_with_fuel(total_size, 2);
    assert(seq![t].drop_last() =~= Seq::<TensorView>::empty());
    if b.len() == 0 {
        assert(a + b =~= a);
    } else {
        assert((a + b).drop_last() =~= a + b.drop_last());
        lemma_tensors_add_up(a, b.drop_last(), t);
    }
}

/// The weights of a tensor are the product of its dimensions: those of some, times those of the
/// others.
pub proof fn lemma_dimensions_multiply(a: Seq<u64>, b: Seq<u64>, d: u64)
    ensures
        product(a + b) == product(a) * product(b),
        product(seq![d]) == d,
        product(Seq::empty()) == 1,
    decreases b.len(),
{
    reveal_with_fuel(product, 2);
    assert(seq![d].drop_last() =~= Seq::<u64>::empty());
    assert(1nat * d as nat == d as nat) by (nonlinear_arith);
    if b.len() == 0 {
        assert(a + b =~= a);
        let x = product(a);
        assert(x * 1nat == x) by (nonlinear_arith);
    } else {
        assert((a + b).drop_last() =~= a + b.drop_last());
        lemma_dimensions_multiply(a, b.drop_last(), d);
        let (x, y, z) = (product(a), product(b.drop_last()), b.last() as nat);
        assert((x * y) * z == x * (y * z)) by (nonlinear_arith);
    }
}

/// A file that does not start with `GGUF`, or is of another version than two or three, is
/// refused as such. Nothing shorter than its header is read as a directory.
pub proof fn lemma_what_is_no_gguf(b: Seq<u8>)
    requires
        b.len() >= 8,
    ensures
        b.take(4) != seq![0x47u8, 0x47u8, 0x55u8, 0x46u8] ==> directory(b) is Err && directory(
            b,
        )->Err_0 is BadMagic,
        b.take(4) == seq![0x47u8, 0x47u8, 0x55u8, 0x46u8] ==> {
            let version = b[4] + 256 * b[5] + 65536 * b[6] + 16777216 * b[7];
            !(2 <= version <= 3) ==> directory(b) is Err && directory(b)->Err_0 is BadVersion
        },
        b.len() < 24 ==> directory(b) is Err,
{
    reveal_with_fuel(little_endian, 5);
    let m = b.subrange(0, 4);
    assert(m =~= b.take(4));
    let magic = seq![0x47u8, 0x47u8, 0x55u8, 0x46u8];
    lemma_four_bytes(m);
    lemma_four_bytes(magic);
    lemma_four_bytes(b.subrange(4, 8));
    if m != magic {
        assert(!(m[0] == 0x47 && m[1] == 0x47 && m[2] == 0x55 && m[3] == 0x46)) by {
            if m[0] == 0x47 && m[1] == 0x47 && m[2] == 0x55 && m[3] == 0x46 {
                assert(m =~= magic);
            }
        }
    }
}

proof fn lemma_four_bytes(b: Seq<u8>)
    requires
        b.len() == 4,
    ensures
        little_endian(b) == b[0] + 256 * b[1] + 65536 * b[2] + 16777216 * b[3],
{
    let b1 = b.drop_first();
    let b2 = b1.drop_first();
    let b3 = b2.drop_first();
    assert(b3.drop_first() =~= Seq::<u8>::empty());
    assert(little_endian(b3.drop_first()) == 0);
    assert(little_endian(b3) == b[3]);
    assert(little_endian(b2) == b[2] + 256 * b[3]);
    assert(little_endian(b1) == b[1] + 256 * b[2] + 65536 * b[3]);
}

/// A type that the format does not number is refused, and so is a string of more than 64 MiB,
/// before any of it is read.
pub proof fn lemma_what_is_implausible(b: Seq<u8>, pos: int, ty: u32, len: nat)
    requires
        0 <= pos,
    ensures
        ty > 12 ==> value_at(b, ty, pos) == Err::<(ValueView, int), GgufError>(
            GgufError::BadValueType(ty),
        ),
        uint_at(b, pos, 8) == Ok::<(nat, int), GgufError>((len, pos + 8)) && len > 64 * 1024 * 1024
            ==> string_at(b, pos) == Err::<(Seq<char>, int), GgufError>(
            GgufError::ImplausibleString(len as u64),
        ),
{
}

/// A number of up to 64 bits is read back from its eight bytes.
pub proof fn lemma_eight_bytes(v: nat)
    requires
        v <= u64::MAX,
    ensures
        low_bytes(v, 8).len() == 8,
        little_endian(low_bytes(v, 8)) == v,
{
    lemma_low_bytes(v, 8);
}

/// What is said of a file that is refused names what was found in it.
pub proof fn lemma_refusals_name_what_was_found(n: u32, big: u64)
    ensures
        text::ends_with(GgufError::BadVersion(n).text(), text::decimal(n as nat)),
        text::ends_with(GgufError::BadValueType(n).text(), text::decimal(n as nat)),
        text::starts_with(
            GgufError::BadMagic(n).text(),
            "not a GGUF file: magic was 0x"@ + text::hex(n as nat, 8),
        ),
        text::contains(GgufError::ImplausibleString(big).text(), text::decimal(big as nat)),
{
    let empty = Seq::<char>::empty();
    let d = text::decimal(n as nat);
    text::lemma_what_a_text_holds(empty, d, "unsupported GGUF version "@, empty);
    text::lemma_what_a_text_holds(empty, d, "unknown metadata value type "@, empty);
    let head = "not a GGUF file: magic was 0x"@ + text::hex(n as nat, 8);
    let tail = ", expected 0x"@ + text::hex(MAGIC as nat, 8);
    assert(GgufError::BadMagic(n).text() =~= head + tail);
    text::lemma_what_a_text_holds(empty, head, empty, tail);
    text::lemma_what_a_text_holds(
        empty,
        text::decimal(big as nat),
        "string of "@,
        " bytes is implausible"@,
    );
}

} // verus!
