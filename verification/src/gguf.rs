//! A reader for GGUF model files: the header, the metadata key/value table
//! and the tensor-info table, each checked against the file's bytes.
//!
//! The reader works on the bytes of the file; the caller maps or reads the
//! file. Floating-point metadata values are kept as their IEEE-754 bits.

use vstd::prelude::*;
use crate::tensor::block_size_spec;
use crate::tensor::ggml_code;
use crate::tensor::type_size_spec;
use crate::tensor::GgmlType;
use crate::text::lossy_string;
use crate::text::str_eq;
use crate::text::utf8_lossy;
use vstd::arithmetic::power2::lemma2_to64;
use vstd::arithmetic::power2::lemma2_to64_rest;
use vstd::arithmetic::power2::lemma_pow2_adds;
use vstd::arithmetic::power2::pow2;

verus! {

/// Tensor data starts at a multiple of this many bytes unless the metadata
/// says otherwise.
pub const DEFAULT_ALIGNMENT: usize = 32;

/// Longest string the reader accepts.
pub const GGUF_MAX_STRING_LENGTH: usize = 1073741824;

/// Most elements an array, the metadata table or the tensor table may have.
pub const GGUF_MAX_ARRAY_ELEMENTS: usize = 1073741824;

/// Most dimensions a tensor may have.
pub const GGUF_MAX_TENSOR_DIMS: u32 = 4;

/// Deepest nesting of arrays the reader accepts.
pub const GGUF_MAX_VALUE_DEPTH: usize = 64;

/// Why a GGUF file was refused.
#[derive(Debug, Clone, Copy, PartialEq, Eq)]
pub enum GgufError {
    /// A read would end past the largest possible position.
    PositionOverflow,
    /// A read would end past the end of the file.
    Truncated,
    /// The file does not start with the GGUF magic.
    UnknownMagic(u32),
    /// The format version is not 1, 2 or 3.
    UnsupportedVersion(u32),
    /// A value-type code is not one of the thirteen GGUF value types.
    UnknownValueType(u32),
    /// A boolean byte is neither 0 nor 1.
    InvalidBool(u8),
    /// A 64-bit length or index does not fit `usize`.
    DoesNotFitUsize(u64),
    /// A string is longer than the reader accepts.
    StringTooLong(usize),
    /// An array has more elements than the reader accepts.
    ArrayTooLong(usize),
    /// An array cannot fit in the bytes that remain.
    ArrayTruncated,
    /// Arrays are nested deeper than the reader accepts.
    DepthExceeded,
    /// The header declares more tensors than the reader accepts.
    TensorCountTooLarge(usize),
    /// The header declares more metadata entries than the reader accepts.
    MetadataCountTooLarge(usize),
    /// The declared tables cannot fit in the bytes that remain.
    HeaderTruncated,
    /// A tensor has more dimensions than the reader accepts.
    TooManyDims(u32),
    /// A tensor-type code names no supported type.
    UnknownTensorType(u32),
    /// `general.alignment` is zero.
    ZeroAlignment,
    /// Tensor data would start past the end of the file.
    DataOffsetPastEnd,
    /// A tensor's element count overflows `usize`.
    ElementCountOverflow,
    /// A tensor's element count is not a whole number of blocks.
    NotWholeBlocks,
    /// A tensor's byte length overflows `usize`.
    ByteLengthOverflow,
    /// A tensor's start offset overflows `usize`.
    TensorOffsetOverflow,
    /// A tensor's bytes end past the end of the file.
    TensorPastEnd,
    /// No tensor has the requested name.
    MissingTensor,
    /// A metadata key is absent or not of the requested type.
    MetadataType,
}

/// Format version, from the file's magic and version fields.
#[derive(Debug, Clone, Copy, PartialEq, Eq, Structural)]
pub enum VersionedMagic {
    GgufV1,
    GgufV2,
    GgufV3,
}

/// Bytes of a length prefix in each version.
pub open spec fn prefix_size_spec(m: VersionedMagic) -> usize {
    match m {
        VersionedMagic::GgufV1 => 4,
        _ => 8,
    }
}

impl VersionedMagic {
    /// Bytes of a string or array length prefix: 4 in version 1, else 8.
    pub fn length_prefix_size(self) -> (r: usize)
        ensures
            r == prefix_size_spec(self),
    {
        match self {
            VersionedMagic::GgufV1 => 4,
            VersionedMagic::GgufV2 | VersionedMagic::GgufV3 => 8,
        }
    }
}

/// The type of a metadata value.
#[derive(Debug, Clone, Copy, PartialEq, Eq, Hash, Structural)]
pub enum ValueType {
    U8,
    I8,
    U16,
    I16,
    U32,
    I32,
    U64,
    I64,
    F32,
    F64,
    Bool,
    String,
    Array,
}

/// The value type with GGUF code `v`.
pub open spec fn value_type_of(v: u32) -> Option<ValueType> {
    if v == 0 {
        Some(ValueType::U8)
    } else if v == 1 {
        Some(ValueType::I8)
    } else if v == 2 {
        Some(ValueType::U16)
    } else if v == 3 {
        Some(ValueType::I16)
    } else if v == 4 {
        Some(ValueType::U32)
    } else if v == 5 {
        Some(ValueType::I32)
    } else if v == 6 {
        Some(ValueType::F32)
    } else if v == 7 {
        Some(ValueType::Bool)
    } else if v == 8 {
        Some(ValueType::String)
    } else if v == 9 {
        Some(ValueType::Array)
    } else if v == 10 {
        Some(ValueType::U64)
    } else if v == 11 {
        Some(ValueType::I64)
    } else if v == 12 {
        Some(ValueType::F64)
    } else {
        None
    }
}

/// The fewest bytes a value of type `t` takes on disk.
pub open spec fn min_disk_size_spec(t: ValueType, m: VersionedMagic) -> usize {
    match t {
        ValueType::U8 | ValueType::I8 | ValueType::Bool => 1,
        ValueType::U16 | ValueType::I16 => 2,
        ValueType::U32 | ValueType::I32 | ValueType::F32 => 4,
        ValueType::U64 | ValueType::I64 | ValueType::F64 => 8,
        ValueType::String => prefix_size_spec(m),
        ValueType::Array => (4 + prefix_size_spec(m)) as usize,
    }
}

impl ValueType {
    /// Decodes a GGUF value-type code.
    pub fn from_u32(v: u32) -> (r: Result<ValueType, GgufError>)
        ensures
            match value_type_of(v) {
                Some(t) => r == Ok::<ValueType, GgufError>(t),
                None => r == Err::<ValueType, GgufError>(GgufError::UnknownValueType(v)),
            },
    {
        match v {
            0 => Ok(ValueType::U8),
            1 => Ok(ValueType::I8),
            2 => Ok(ValueType::U16),
            3 => Ok(ValueType::I16),
            4 => Ok(ValueType::U32),
            5 => Ok(ValueType::I32),
            6 => Ok(ValueType::F32),
            7 => Ok(ValueType::Bool),
            8 => Ok(ValueType::String),
            9 => Ok(ValueType::Array),
            10 => Ok(ValueType::U64),
            11 => Ok(ValueType::I64),
            12 => Ok(ValueType::F64),
            _ => Err(GgufError::UnknownValueType(v)),
        }
    }

    /// The fewest bytes a value of this type takes on disk.
    pub fn min_disk_size(self, magic: VersionedMagic) -> (r: usize)
        ensures
            r == min_disk_size_spec(self, magic),
    {
        match self {
            ValueType::U8 | ValueType::I8 | ValueType::Bool => 1,
            ValueType::U16 | ValueType::I16 => 2,
            ValueType::U32 | ValueType::I32 | ValueType::F32 => 4,
            ValueType::U64 | ValueType::I64 | ValueType::F64 => 8,
            ValueType::String => magic.length_prefix_size(),
            ValueType::Array => 4 + magic.length_prefix_size(),
        }
    }
}

/// The unsigned little-endian number that the bytes `b` spell.
pub open spec fn le_value(b: Seq<u8>) -> nat
    decreases b.len(),
{
    if b.len() == 0 {
        0
    } else {
        b[0] as nat + 256 * le_value(b.drop_first())
    }
}

/// 256 to the power `n`.
pub open spec fn pow256(n: nat) -> nat
    decreases n,
{
    if n == 0 {
        1
    } else {
        256 * pow256((n - 1) as nat)
    }
}

proof fn lemma_le_value_bound(b: Seq<u8>)
    ensures
        le_value(b) < pow256(b.len()),
    decreases b.len(),
{
    if b.len() > 0 {
        lemma_le_value_bound(b.drop_first());
    }
}

/// The reader's outcome for `n` bytes at `pos`: where they end, or why
/// they cannot be read.
pub open spec fn take_spec(len: int, pos: int, n: int) -> Result<int, GgufError> {
    if pos + n > usize::MAX {
        Err(GgufError::PositionOverflow)
    } else if pos + n > len {
        Err(GgufError::Truncated)
    } else {
        Ok(pos + n)
    }
}

/// The little-endian unsigned number of `n` bytes at `pos`, and where it
/// ends.
pub open spec fn uint_at(data: Seq<u8>, pos: int, n: int) -> Result<(nat, int), GgufError> {
    match take_spec(data.len() as int, pos, n) {
        Err(e) => Err(e),
        Ok(end) => Ok((le_value(data.subrange(pos, end)), end)),
    }
}

/// A cursor over the bytes of a GGUF file.
pub struct Reader<'a> {
    data: &'a [u8],
    pos: usize,
}

impl<'a> Reader<'a> {
    /// The bytes being read.
    pub closed spec fn bytes_spec(&self) -> Seq<u8> {
        self.data@
    }

    /// The current position.
    pub closed spec fn pos_spec(&self) -> int {
        self.pos as int
    }

    /// The position is within the bytes.
    pub closed spec fn wf(&self) -> bool {
        self.pos <= self.data@.len()
    }

    /// A reader at the start of `data`.
    pub fn new(data: &'a [u8]) -> (r: Reader<'a>)
        ensures
            r.wf(),
            r.bytes_spec() == data@,
            r.pos_spec() == 0,
    {
        Reader { data, pos: 0 }
    }

    /// The current position.
    pub fn position(&self) -> (r: usize)
        ensures
            r == self.pos_spec(),
    {
        self.pos
    }

    /// Bytes left after the current position.
    pub fn remaining(&self) -> (r: usize)
        requires
            self.wf(),
        ensures
            r == self.bytes_spec().len() - self.pos_spec(),
    {
        self.data.len() - self.pos
    }

    /// Reads `len` bytes and moves past them.
    pub fn bytes(&mut self, len: usize) -> (r: Result<&'a [u8], GgufError>)
        requires
            old(self).wf(),
        ensures
            final(self).wf(),
            final(self).bytes_spec() == old(self).bytes_spec(),
            match take_spec(old(self).bytes_spec().len() as int, old(self).pos_spec(), len as int) {
                Err(e) => r == Err::<&[u8], GgufError>(e) && final(self).pos_spec() == old(self).pos_spec(),
                Ok(end) => r is Ok && final(self).pos_spec() == end
                    && r.unwrap()@ == old(self).bytes_spec().subrange(old(self).pos_spec(), end),
            },
    {
        if len > usize::MAX - self.pos {
            return Err(GgufError::PositionOverflow);
        }
        let end = self.pos + len;
        if end > self.data.len() {
            return Err(GgufError::Truncated);
        }
        let out = slice_range(self.data, self.pos, end);
        self.pos = end;
        Ok(out)
    }

    /// Reads an `n`-byte little-endian unsigned number.
    pub fn uint(&mut self, n: usize) -> (r: Result<u64, GgufError>)
        requires
            old(self).wf(),
            1 <= n <= 8,
        ensures
            final(self).wf(),
            final(self).bytes_spec() == old(self).bytes_spec(),
            match uint_at(old(self).bytes_spec(), old(self).pos_spec(), n as int) {
                Err(e) => r == Err::<u64, GgufError>(e) && final(self).pos_spec() == old(self).pos_spec(),
                Ok((v, end)) => r == Ok::<u64, GgufError>(v as u64) && final(self).pos_spec() == end
                    && v < pow256(n as nat) && v <= u64::MAX,
            },
    {
        let b = self.bytes(n)?;
        let ghost bs = b@;
        let mut acc: u64 = 0;
        let mut k: usize = n;
        proof {
            assert(bs.subrange(n as int, n as int) =~= Seq::<u8>::empty());
            reveal_with_fuel(pow256, 9);
            assert(pow256(8) == 0x1_0000_0000_0000_0000);
        }
        while k > 0
            invariant
                b@ == bs,
                bs.len() == n,
                1 <= n <= 8,
                k <= n,
                acc == le_value(bs.subrange(k as int, n as int)),
                pow256(8) == 0x1_0000_0000_0000_0000,
            decreases k,
        {
            proof {
                lemma_le_value_bound(bs.subrange(k as int, n as int));
                lemma_pow256_mono((n - k) as nat, 7);
                assert(bs.subrange(k - 1, n as int).drop_first() =~= bs.subrange(k as int, n as int));
                assert(acc * 256 + 255 < pow256(8)) by (nonlinear_arith)
                    requires
                        acc < pow256((n - k) as nat),
                        pow256((n - k) as nat) <= pow256(7),
                        pow256(8) == 256 * pow256(7),
                ;
            }
            acc = acc * 256 + b[k - 1] as u64;
            k = k - 1;
        }
        proof {
            assert(bs.subrange(0, n as int) =~= bs);
            lemma_le_value_bound(bs);
        }
        Ok(acc)
    }
}

proof fn lemma_pow256_mono(a: nat, b: nat)
    requires
        a <= b,
    ensures
        pow256(a) <= pow256(b),
    decreases b,
{
    if a < b {
        lemma_pow256_mono(a, (b - 1) as nat);
    }
}

/// The subslice `data[start..end]`.
fn slice_range<'a>(data: &'a [u8], start: usize, end: usize) -> (r: &'a [u8])
    requires
        start <= end <= data@.len(),
    ensures
        r@ == data@.subrange(start as int, end as int),
{
    let (head, _) = data.split_at(end);
    let (_, tail) = head.split_at(start);
    tail
}

/// `b` without its trailing NUL bytes.
pub open spec fn trim_nuls(b: Seq<u8>) -> Seq<u8>
    decreases b.len(),
{
    if b.len() > 0 && b.last() == 0 {
        trim_nuls(b.drop_last())
    } else {
        b
    }
}

/// `v` read as a two's-complement number of `bits` bits.
pub open spec fn signed(v: nat, bits: nat) -> int {
    if v >= pow2((bits - 1) as nat) {
        v - pow2(bits)
    } else {
        v as int
    }
}

/// A length prefix at `pos`: 4 bytes in version 1, else 8 bytes that must
/// fit `usize`.
pub open spec fn length_at(data: Seq<u8>, pos: int, m: VersionedMagic) -> Result<(nat, int), GgufError> {
    match m {
        VersionedMagic::GgufV1 => uint_at(data, pos, 4),
        _ => match uint_at(data, pos, 8) {
            Err(e) => Err(e),
            Ok((v, end)) => if v > usize::MAX {
                Err(GgufError::DoesNotFitUsize(v as u64))
            } else {
                Ok((v, end))
            },
        },
    }
}

/// A GGUF string at `pos`: its length prefix, then that many bytes, of
/// which trailing NULs are dropped before decoding.
pub open spec fn string_at(data: Seq<u8>, pos: int, m: VersionedMagic) -> Result<(Seq<char>, int), GgufError> {
    match length_at(data, pos, m) {
        Err(e) => Err(e),
        Ok((len, p)) => if len > GGUF_MAX_STRING_LENGTH {
            Err(GgufError::StringTooLong(len as usize))
        } else {
            match take_spec(data.len() as int, p, len as int) {
                Err(e) => Err(e),
                Ok(end) => Ok((utf8_lossy(trim_nuls(data.subrange(p, end))), end)),
            }
        },
    }
}

/// A metadata value as the file spells it; floats are kept as their bits.
pub enum ValueModel {
    U8(u8),
    I8(i8),
    U16(u16),
    I16(i16),
    U32(u32),
    I32(i32),
    U64(u64),
    I64(i64),
    F32(u32),
    F64(u64),
    Bool(bool),
    Str(Seq<char>),
    Array(Seq<ValueModel>),
}

/// A scalar of type `t` at `pos`, and where it ends.
pub open spec fn scalar_at(data: Seq<u8>, pos: int, t: ValueType) -> Result<(ValueModel, int), GgufError> {
    match uint_at(data, pos, scalar_width(t)) {
        Err(e) => Err(e),
        Ok((v, end)) => match scalar_of(t, v) {
            Err(e) => Err(e),
            Ok(m) => Ok((m, end)),
        },
    }
}

/// A value of type `t` at `pos`, nested `depth` arrays deep, and where it
/// ends.
pub open spec fn value_at(data: Seq<u8>, pos: int, t: ValueType, m: VersionedMagic, depth: int) -> Result<(ValueModel, int), GgufError>
    decreases 65 - depth, 0int, 0int,
{
    if depth > GGUF_MAX_VALUE_DEPTH {
        Err(GgufError::DepthExceeded)
    } else {
        match t {
            ValueType::String => match string_at(data, pos, m) {
                Err(e) => Err(e),
                Ok((s, end)) => Ok((ValueModel::Str(s), end)),
            },
            ValueType::Array => match uint_at(data, pos, 4) {
                Err(e) => Err(e),
                Ok((code, p1)) => match value_type_of(code as u32) {
                    None => Err(GgufError::UnknownValueType(code as u32)),
                    Some(elem) => match length_at(data, p1, m) {
                        Err(e) => Err(e),
                        Ok((len, p2)) => if len > GGUF_MAX_ARRAY_ELEMENTS {
                            Err(GgufError::ArrayTooLong(len as usize))
                        } else if saturating_mul_spec(len as int, min_disk_size_spec(elem, m) as int)
                            > data.len() - p2 {
                            Err(GgufError::ArrayTruncated)
                        } else {
                            match values_at(data, p2, elem, m, depth + 1, len as int) {
                                Err(e) => Err(e),
                                Ok((vs, end)) => Ok((ValueModel::Array(vs), end)),
                            }
                        },
                    },
                },
            },
            _ => scalar_at(data, pos, t),
        }
    }
}

/// `n` values of type `t` one after another from `pos`, and where the last
/// ends.
pub open spec fn values_at(data: Seq<u8>, pos: int, t: ValueType, m: VersionedMagic, depth: int, n: int) -> Result<(Seq<ValueModel>, int), GgufError>
    decreases 65 - depth, 1int, n,
{
    if n <= 0 {
        Ok((Seq::empty(), pos))
    } else {
        match values_at(data, pos, t, m, depth, n - 1) {
            Err(e) => Err(e),
            Ok((vs, p)) => match value_at(data, p, t, m, depth) {
                Err(e) => Err(e),
                Ok((v, end)) => Ok((vs.push(v), end)),
            },
        }
    }
}

/// `a * b` clamped at `usize::MAX`.
pub open spec fn saturating_mul_spec(a: int, b: int) -> int {
    if a * b > usize::MAX {
        usize::MAX as int
    } else {
        a * b
    }
}

/// A metadata value.
#[derive(Debug)]
pub enum Value {
    U8(u8),
    I8(i8),
    U16(u16),
    I16(i16),
    U32(u32),
    I32(i32),
    U64(u64),
    I64(i64),
    /// The IEEE-754 bits of a 32-bit float.
    F32(u32),
    /// The IEEE-754 bits of a 64-bit float.
    F64(u64),
    Bool(bool),
    String(String),
    Array(Vec<Value>),
}

impl Value {
    /// What the value holds, as plain values.
    pub open spec fn model(&self) -> ValueModel
        decreases self,
    {
        match self {
            Value::U8(x) => ValueModel::U8(*x),
            Value::I8(x) => ValueModel::I8(*x),
            Value::U16(x) => ValueModel::U16(*x),
            Value::I16(x) => ValueModel::I16(*x),
            Value::U32(x) => ValueModel::U32(*x),
            Value::I32(x) => ValueModel::I32(*x),
            Value::U64(x) => ValueModel::U64(*x),
            Value::I64(x) => ValueModel::I64(*x),
            Value::F32(x) => ValueModel::F32(*x),
            Value::F64(x) => ValueModel::F64(*x),
            Value::Bool(x) => ValueModel::Bool(*x),
            Value::String(s) => ValueModel::Str(s@),
            Value::Array(v) => ValueModel::Array(
                Seq::new(
                    v@.len(),
                    |i: int|
                        if 0 <= i < v@.len() {
                            proof {
                                assert(decreases_to!(*self => *v));
                                assert(decreases_to!(*v => v@));
                                assert(decreases_to!(v@ => v@[i]));
                            }
                            v@[i].model()
                        } else {
                            ValueModel::Bool(false)
                        },
                ),
            ),
        }
    }
}

/// The models of a sequence of values.
pub open spec fn models(v: Seq<Value>) -> Seq<ValueModel> {
    Seq::new(v.len(), |i: int| v[i].model())
}

/// Reads a length prefix.
pub fn read_length(reader: &mut Reader, magic: VersionedMagic) -> (r: Result<usize, GgufError>)
    requires
        old(reader).wf(),
    ensures
        final(reader).wf(),
        final(reader).bytes_spec() == old(reader).bytes_spec(),
        match length_at(old(reader).bytes_spec(), old(reader).pos_spec(), magic) {
            Err(e) => r == Err::<usize, GgufError>(e),
            Ok((v, end)) => r == Ok::<usize, GgufError>(v as usize) && v <= usize::MAX
                && final(reader).pos_spec() == end,
        },
{
    match magic {
        VersionedMagic::GgufV1 => {
            let v = match reader.uint(4) {
                Ok(v) => v,
                Err(e) => return Err(e),
            };
            proof {
                reveal_with_fuel(pow256, 5);
                assert(v < 0x1_0000_0000);
                assert(usize::MAX >= 0xffff_ffff);
                let ghost sp = uint_at(old(reader).bytes_spec(), old(reader).pos_spec(), 4);
                assert(sp is Ok);
                assert(sp.unwrap().0 == v);
                assert(length_at(old(reader).bytes_spec(), old(reader).pos_spec(), magic) == sp);
                assert(reader.pos_spec() == sp.unwrap().1);
                assert(reader.wf());
                assert(reader.bytes_spec() == old(reader).bytes_spec());
            }
            Ok(v as usize)
        },
        VersionedMagic::GgufV2 | VersionedMagic::GgufV3 => {
            let v = match reader.uint(8) {
                Ok(v) => v,
                Err(e) => return Err(e),
            };
            if v > usize::MAX as u64 {
                return Err(GgufError::DoesNotFitUsize(v));
            }
            Ok(v as usize)
        },
    }
}

/// Reads a GGUF string: length prefix, bytes, trailing NULs dropped.
pub fn read_string(reader: &mut Reader, magic: VersionedMagic) -> (r: Result<String, GgufError>)
    requires
        old(reader).wf(),
    ensures
        final(reader).wf(),
        final(reader).bytes_spec() == old(reader).bytes_spec(),
        match string_at(old(reader).bytes_spec(), old(reader).pos_spec(), magic) {
            Err(e) => r == Err::<String, GgufError>(e),
            Ok((t, end)) => r is Ok && r.unwrap()@ == t && final(reader).pos_spec() == end,
        },
{
    let len = match read_length(reader, magic) {
        Ok(len) => len,
        Err(e) => return Err(e),
    };
    if len > GGUF_MAX_STRING_LENGTH {
        return Err(GgufError::StringTooLong(len));
    }
    let bytes = match reader.bytes(len) {
        Ok(b) => b,
        Err(e) => return Err(e),
    };
    let mut k: usize = bytes.len();
    let ghost b = bytes@;
    assert(b.take(b.len() as int) =~= b);
    while k > 0 && bytes[k - 1] == 0
        invariant
            bytes@ == b,
            k <= b.len(),
            trim_nuls(b) == trim_nuls(b.take(k as int)),
        decreases k,
    {
        assert(b.take(k as int).drop_last() =~= b.take(k - 1));
        k = k - 1;
    }
    assert(b.take(b.len() as int) =~= b);
    let trimmed = slice_range(bytes, 0, k);
    assert(trimmed@ =~= b.take(k as int));
    Ok(lossy_string(trimmed))
}

proof fn lemma_pow2_values()
    ensures
        pow2(7) == 128,
        pow2(8) == 256,
        pow2(15) == 32768,
        pow2(16) == 65536,
        pow2(31) == 0x8000_0000,
        pow2(32) == 0x1_0000_0000,
        pow2(63) == 0x8000_0000_0000_0000,
        pow2(64) == 0x1_0000_0000_0000_0000,
{
    lemma2_to64();
    lemma2_to64_rest();
}

/// Byte width of a scalar type on disk.
pub open spec fn scalar_width(t: ValueType) -> int {
    match t {
        ValueType::U8 | ValueType::I8 | ValueType::Bool => 1,
        ValueType::U16 | ValueType::I16 => 2,
        ValueType::U32 | ValueType::I32 | ValueType::F32 => 4,
        _ => 8,
    }
}

/// The scalar of type `t` whose little-endian bits are `v`.
pub open spec fn scalar_of(t: ValueType, v: nat) -> Result<ValueModel, GgufError> {
    match t {
        ValueType::U8 => Ok(ValueModel::U8(v as u8)),
        ValueType::I8 => Ok(ValueModel::I8(signed(v, 8) as i8)),
        ValueType::U16 => Ok(ValueModel::U16(v as u16)),
        ValueType::I16 => Ok(ValueModel::I16(signed(v, 16) as i16)),
        ValueType::U32 => Ok(ValueModel::U32(v as u32)),
        ValueType::I32 => Ok(ValueModel::I32(signed(v, 32) as i32)),
        ValueType::F32 => Ok(ValueModel::F32(v as u32)),
        ValueType::U64 => Ok(ValueModel::U64(v as u64)),
        ValueType::I64 => Ok(ValueModel::I64(signed(v, 64) as i64)),
        ValueType::F64 => Ok(ValueModel::F64(v as u64)),
        _ => if v == 0 {
            Ok(ValueModel::Bool(false))
        } else if v == 1 {
            Ok(ValueModel::Bool(true))
        } else {
            Err(GgufError::InvalidBool(v as u8))
        },
    }
}

fn scalar_value(t: ValueType, v: u64) -> (r: Result<Value, GgufError>)
    requires
        t != ValueType::String,
        t != ValueType::Array,
        v < pow2((8 * scalar_width(t)) as nat),
    ensures
        match scalar_of(t, v as nat) {
            Err(e) => r == Err::<Value, GgufError>(e),
            Ok(m) => r is Ok && r.unwrap().model() == m,
        },
{
    proof {
        lemma_pow2_values();
    }
    match t {
        ValueType::U8 => Ok(Value::U8(v as u8)),
        ValueType::I8 => {
            let x: i8 = if v >= 128 {
                (v as i64 - 256) as i8
            } else {
                v as i8
            };
            Ok(Value::I8(x))
        },
        ValueType::U16 => Ok(Value::U16(v as u16)),
        ValueType::I16 => {
            let x: i16 = if v >= 32768 {
                (v as i64 - 65536) as i16
            } else {
                v as i16
            };
            Ok(Value::I16(x))
        },
        ValueType::U32 => Ok(Value::U32(v as u32)),
        ValueType::I32 => {
            let x: i32 = if v >= 0x8000_0000 {
                (v as i64 - 0x1_0000_0000) as i32
            } else {
                v as i32
            };
            Ok(Value::I32(x))
        },
        ValueType::F32 => Ok(Value::F32(v as u32)),
        ValueType::U64 => Ok(Value::U64(v)),
        ValueType::I64 => {
            let x: i64 = if v >= 0x8000_0000_0000_0000 {
                (v - 0x8000_0000_0000_0000) as i64 + i64::MIN
            } else {
                v as i64
            };
            Ok(Value::I64(x))
        },
        ValueType::F64 => Ok(Value::F64(v)),
        _ => {
            if v == 0 {
                Ok(Value::Bool(false))
            } else if v == 1 {
                Ok(Value::Bool(true))
            } else {
                Err(GgufError::InvalidBool(v as u8))
            }
        },
    }
}

proof fn lemma_pow256_is_pow2(n: nat)
    ensures
        pow256(n) == pow2(8 * n),
    decreases n,
{
    if n > 0 {
        lemma_pow256_is_pow2((n - 1) as nat);
        lemma2_to64();
        lemma_pow2_adds(8, (8 * (n - 1)) as nat);
        assert(8 + 8 * (n - 1) == 8 * n);
    } else {
        lemma2_to64();
    }
}

/// Reads a scalar (any type but string and array).
fn read_scalar(reader: &mut Reader, t: ValueType) -> (r: Result<Value, GgufError>)
    requires
        old(reader).wf(),
        t != ValueType::String,
        t != ValueType::Array,
    ensures
        final(reader).wf(),
        final(reader).bytes_spec() == old(reader).bytes_spec(),
        match scalar_at(old(reader).bytes_spec(), old(reader).pos_spec(), t) {
            Err(e) => r == Err::<Value, GgufError>(e),
            Ok((v, end)) => r is Ok && r.unwrap().model() == v && final(reader).pos_spec() == end,
        },
{
    let n: usize = match t {
        ValueType::U8 | ValueType::I8 | ValueType::Bool => 1,
        ValueType::U16 | ValueType::I16 => 2,
        ValueType::U32 | ValueType::I32 | ValueType::F32 => 4,
        _ => 8,
    };
    let v = match reader.uint(n) {
        Ok(v) => v,
        Err(e) => return Err(e),
    };
    proof {
        lemma_pow256_is_pow2(n as nat);
        assert(n == scalar_width(t));
        let ghost sp = uint_at(old(reader).bytes_spec(), old(reader).pos_spec(), n as int);
        assert(sp is Ok);
        assert(sp.unwrap().0 == v);
    }
    scalar_value(t, v)
}
/// `a * b`, or `usize::MAX` when the product does not fit.
fn saturating_mul_usize(a: usize, b: usize) -> (r: usize)
    ensures
        r == saturating_mul_spec(a as int, b as int),
{
    if b != 0 && a > usize::MAX / b {
        proof {
            assert(a * b > usize::MAX) by (nonlinear_arith)
                requires
                    b > 0,
                    a > usize::MAX / b,
            ;
        }
        usize::MAX
    } else {
        proof {
            if b != 0 {
                assert(a * b <= usize::MAX) by (nonlinear_arith)
                    requires
                        b > 0,
                        a <= usize::MAX / b,
                ;
            }
        }
        a * b
    }
}

/// Reads a value of type `t` nested `depth` arrays deep.
pub fn read_value(reader: &mut Reader, t: ValueType, magic: VersionedMagic, depth: usize) -> (r: Result<Value, GgufError>)
    requires
        old(reader).wf(),
    ensures
        final(reader).wf(),
        final(reader).bytes_spec() == old(reader).bytes_spec(),
        match value_at(old(reader).bytes_spec(), old(reader).pos_spec(), t, magic, depth as int) {
            Err(e) => r == Err::<Value, GgufError>(e),
            Ok((v, end)) => r is Ok && r.unwrap().model() == v && final(reader).pos_spec() == end,
        },
    decreases 65 - depth as int,
{
    if depth > GGUF_MAX_VALUE_DEPTH {
        return Err(GgufError::DepthExceeded);
    }
    match t {
        ValueType::String => {
            match read_string(reader, magic) {
                Ok(s) => Ok(Value::String(s)),
                Err(e) => Err(e),
            }
        },
        ValueType::Array => {
            let ghost data = old(reader).bytes_spec();
            let code = match reader.uint(4) {
                Ok(c) => c,
                Err(e) => return Err(e),
            };
            proof {
                reveal_with_fuel(pow256, 5);
            }
            let elem = match ValueType::from_u32(code as u32) {
                Ok(e) => e,
                Err(e) => return Err(e),
            };
            let len = match read_length(reader, magic) {
                Ok(l) => l,
                Err(e) => return Err(e),
            };
            if len > GGUF_MAX_ARRAY_ELEMENTS {
                return Err(GgufError::ArrayTooLong(len));
            }
            let needed = saturating_mul_usize(len, elem.min_disk_size(magic));
            if needed > reader.remaining() {
                return Err(GgufError::ArrayTruncated);
            }
            let ghost p2 = reader.pos_spec();
            let ghost whole = value_at(data, old(reader).pos_spec(), t, magic, depth as int);
            assert(whole == match values_at(data, p2, elem, magic, depth + 1, len as int) {
                Err(e) => Err(e),
                Ok((vs, end)) => Ok((ValueModel::Array(vs), end)),
            });
            let mut values: Vec<Value> = Vec::new();
            let mut i: usize = 0;
            assert(models(values@) =~= Seq::<ValueModel>::empty());
            while i < len
                invariant
                    reader.wf(),
                    reader.bytes_spec() == data,
                    data == old(reader).bytes_spec(),
                    whole == value_at(data, old(reader).pos_spec(), t, magic, depth as int),
                    whole == match values_at(data, p2, elem, magic, depth + 1, len as int) {
                        Err(e) => Err(e),
                        Ok((vs, end)) => Ok((ValueModel::Array(vs), end)),
                    },
                    depth <= GGUF_MAX_VALUE_DEPTH,
                    i <= len,
                    values_at(data, p2, elem, magic, depth + 1, i as int) == Ok::<
                        (Seq<ValueModel>, int),
                        GgufError,
                    >((models(values@), reader.pos_spec())),
                decreases len - i,
            {
                let v = match read_value(reader, elem, magic, depth + 1) {
                    Ok(v) => v,
                    Err(e) => {
                        proof {
                            lemma_values_error_prefix(data, p2, elem, magic, depth + 1, i + 1, len as int);
                        }
                        return Err(e);
                    },
                };
                let ghost before = values@;
                values.push(v);
                assert(models(values@) =~= models(before).push(v.model()));
                i = i + 1;
            }
            let out = Value::Array(values);
            proof {
                let ms = models(values@);
                let s = out.model()->Array_0;
                assert(s.len() == ms.len());
                assert forall|k: int| 0 <= k < s.len() implies s[k] == ms[k] by {}
                assert(s =~= ms);
            }
            Ok(out)
        },
        _ => read_scalar(reader, t),
    }
}

/// An error among the first `k` of `n` values is the error of all `n`.
proof fn lemma_values_error_prefix(data: Seq<u8>, pos: int, t: ValueType, m: VersionedMagic, depth: int, k: int, n: int)
    requires
        0 <= k <= n,
        values_at(data, pos, t, m, depth, k) is Err,
    ensures
        values_at(data, pos, t, m, depth, n) == values_at(data, pos, t, m, depth, k),
    decreases n - k,
{
    if k < n {
        lemma_values_error_prefix(data, pos, t, m, depth, k, n - 1);
    }
}

/// The product of `shape`, or `None` as soon as a partial product (taken
/// from the first extent on) overflows `usize`.
pub open spec fn checked_product(shape: Seq<usize>) -> Option<usize>
    decreases shape.len(),
{
    if shape.len() == 0 {
        Some(1)
    } else {
        match checked_product(shape.drop_last()) {
            None => None,
            Some(p) => if p * shape.last() > usize::MAX {
                None
            } else {
                Some((p * shape.last()) as usize)
            },
        }
    }
}

fn checked_product_exec(shape: &[usize]) -> (r: Option<usize>)
    ensures
        r == checked_product(shape@),
{
    let mut acc: usize = 1;
    let mut i: usize = 0;
    assert(shape@.take(0) =~= Seq::<usize>::empty());
    while i < shape.len()
        invariant
            i <= shape@.len(),
            checked_product(shape@.take(i as int)) == Some(acc),
        decreases shape.len() - i,
    {
        assert(shape@.take(i + 1).drop_last() =~= shape@.take(i as int));
        let d = shape[i];
        if d != 0 && acc > usize::MAX / d {
            proof {
                assert(acc * d > usize::MAX) by (nonlinear_arith)
                    requires
                        d > 0,
                        acc > usize::MAX / d,
                ;
                lemma_checked_product_none_prefix(shape@, i + 1);
                assert(shape@.take(shape@.len() as int) =~= shape@);
            }
            return None;
        }
        proof {
            if d != 0 {
                assert(acc * d <= usize::MAX) by (nonlinear_arith)
                    requires
                        d > 0,
                        acc <= usize::MAX / d,
                ;
            }
        }
        acc = acc * d;
        i = i + 1;
    }
    assert(shape@.take(shape@.len() as int) =~= shape@);
    Some(acc)
}

/// Once a prefix of the extents overflows, the whole product does.
proof fn lemma_checked_product_none_prefix(s: Seq<usize>, k: int)
    requires
        0 <= k <= s.len(),
        checked_product(s.take(k)) is None,
    ensures
        checked_product(s) is None,
    decreases s.len(),
{
    if k == s.len() {
        assert(s.take(k) =~= s);
    } else {
        assert(s.drop_last().take(k) =~= s.take(k));
        lemma_checked_product_none_prefix(s.drop_last(), k);
    }
}

/// Bytes a tensor of type `t` and extents `shape` occupies, or why that
/// cannot be computed.
pub open spec fn byte_len_spec(t: GgmlType, shape: Seq<usize>) -> Result<usize, GgufError> {
    match checked_product(shape) {
        None => Err(GgufError::ElementCountOverflow),
        Some(elems) => if elems % block_size_spec(t) != 0 {
            Err(GgufError::NotWholeBlocks)
        } else if (elems / block_size_spec(t)) * type_size_spec(t) > usize::MAX {
            Err(GgufError::ByteLengthOverflow)
        } else {
            Ok(((elems / block_size_spec(t)) * type_size_spec(t)) as usize)
        },
    }
}

fn byte_len_of(t: GgmlType, shape: &[usize]) -> (r: Result<usize, GgufError>)
    ensures
        r == byte_len_spec(t, shape@),
{
    let elems = match checked_product_exec(shape) {
        Some(e) => e,
        None => return Err(GgufError::ElementCountOverflow),
    };
    let bs = t.block_size();
    if elems % bs != 0 {
        return Err(GgufError::NotWholeBlocks);
    }
    let blocks = elems / bs;
    let ts = t.type_size();
    if blocks > usize::MAX / ts {
        proof {
            assert(blocks * ts > usize::MAX) by (nonlinear_arith)
                requires
                    ts > 0,
                    blocks > usize::MAX / ts,
            ;
        }
        return Err(GgufError::ByteLengthOverflow);
    }
    proof {
        assert(blocks * ts <= usize::MAX) by (nonlinear_arith)
            requires
                ts > 0,
                blocks <= usize::MAX / ts,
        ;
    }
    Ok(blocks * ts)
}

/// A tensor's entry in the tensor-info table.
pub struct TensorInfo {
    pub dtype: GgmlType,
    pub shape: Vec<usize>,
    pub offset: usize,
}

impl TensorInfo {
    /// Number of elements, saturating at `usize::MAX`.
    pub fn element_count(&self) -> (r: usize)
        ensures
            r == match checked_product(self.shape@) {
                Some(n) => n,
                None => usize::MAX,
            },
    {
        match checked_product_exec(self.shape.as_slice()) {
            Some(n) => n,
            None => usize::MAX,
        }
    }

    /// Number of elements, or an error when it overflows `usize`.
    pub fn checked_element_count(&self) -> (r: Result<usize, GgufError>)
        ensures
            match checked_product(self.shape@) {
                Some(n) => r == Ok::<usize, GgufError>(n),
                None => r == Err::<usize, GgufError>(GgufError::ElementCountOverflow),
            },
    {
        match checked_product_exec(self.shape.as_slice()) {
            Some(n) => Ok(n),
            None => Err(GgufError::ElementCountOverflow),
        }
    }

    /// Bytes the tensor's data occupies.
    pub fn byte_len(&self) -> (r: Result<usize, GgufError>)
        ensures
            r == byte_len_spec(self.dtype, self.shape@),
    {
        byte_len_of(self.dtype, self.shape.as_slice())
    }
}

/// A tensor's type, extents and data bytes.
pub struct TensorView<'a> {
    pub dtype: GgmlType,
    pub shape: &'a [usize],
    pub raw_bytes: &'a [u8],
}

impl<'a> TensorView<'a> {
    /// Number of elements, saturating at `usize::MAX`.
    pub fn element_count(&self) -> (r: usize)
        ensures
            r == match checked_product(self.shape@) {
                Some(n) => n,
                None => usize::MAX,
            },
    {
        match checked_product_exec(self.shape) {
            Some(n) => n,
            None => usize::MAX,
        }
    }

    /// Number of elements, or an error when it overflows `usize`.
    pub fn checked_element_count(&self) -> (r: Result<usize, GgufError>)
        ensures
            match checked_product(self.shape@) {
                Some(n) => r == Ok::<usize, GgufError>(n),
                None => r == Err::<usize, GgufError>(GgufError::ElementCountOverflow),
            },
    {
        match checked_product_exec(self.shape) {
            Some(n) => Ok(n),
            None => Err(GgufError::ElementCountOverflow),
        }
    }
}

/// The supported tensor type with ggml code `raw`.
pub open spec fn dtype_of(raw: u32) -> Option<GgmlType> {
    if exists|t: GgmlType| ggml_code(t) == raw {
        Some(choose|t: GgmlType| ggml_code(t) == raw)
    } else {
        None
    }
}

proof fn lemma_ggml_code_injective(a: GgmlType, b: GgmlType)
    requires
        ggml_code(a) == ggml_code(b),
    ensures
        a == b,
{
}

fn read_dtype(raw: u32) -> (r: Result<GgmlType, GgufError>)
    ensures
        match dtype_of(raw) {
            Some(t) => r == Ok::<GgmlType, GgufError>(t),
            None => r == Err::<GgmlType, GgufError>(GgufError::UnknownTensorType(raw)),
        },
{
    match GgmlType::from_raw(raw) {
        Some(t) => {
            proof {
                let c = choose|x: GgmlType| ggml_code(x) == raw;
                lemma_ggml_code_injective(c, t);
            }
            Ok(t)
        },
        None => Err(GgufError::UnknownTensorType(raw)),
    }
}

/// One tensor extent at `pos`: a u32 in version 1, else a u64 that must
/// fit `usize`.
pub open spec fn dim_at(data: Seq<u8>, pos: int, m: VersionedMagic) -> Result<(usize, int), GgufError> {
    match m {
        VersionedMagic::GgufV1 => match uint_at(data, pos, 4) {
            Err(e) => Err(e),
            Ok((v, end)) => Ok((v as usize, end)),
        },
        _ => match uint_at(data, pos, 8) {
            Err(e) => Err(e),
            Ok((v, end)) => if v > usize::MAX {
                Err(GgufError::DoesNotFitUsize(v as u64))
            } else {
                Ok((v as usize, end))
            },
        },
    }
}

/// `k` extents one after another from `pos`, in file order.
pub open spec fn dims_at(data: Seq<u8>, pos: int, m: VersionedMagic, k: int) -> Result<(Seq<usize>, int), GgufError>
    decreases k,
{
    if k <= 0 {
        Ok((Seq::empty(), pos))
    } else {
        match dims_at(data, pos, m, k - 1) {
            Err(e) => Err(e),
            Ok((ds, p)) => match dim_at(data, p, m) {
                Err(e) => Err(e),
                Ok((d, end)) => Ok((ds.push(d), end)),
            },
        }
    }
}

/// A tensor-info record as the file spells it, extents innermost first.
pub struct TensorInfoModel {
    pub name: Seq<char>,
    pub dtype: GgmlType,
    pub shape: Seq<usize>,
    pub offset: usize,
}

/// The tensor-info record at `pos`: name, dimension count, extents (stored
/// outermost first, kept innermost first), type code and data offset.
pub open spec fn tensor_at(data: Seq<u8>, pos: int, m: VersionedMagic) -> Result<(TensorInfoModel, int), GgufError> {
    match string_at(data, pos, m) {
        Err(e) => Err(e),
        Ok((name, p1)) => match uint_at(data, p1, 4) {
            Err(e) => Err(e),
            Ok((n_dims, p2)) => if n_dims > GGUF_MAX_TENSOR_DIMS {
                Err(GgufError::TooManyDims(n_dims as u32))
            } else {
                match dims_at(data, p2, m, n_dims as int) {
                    Err(e) => Err(e),
                    Ok((dims, p3)) => match uint_at(data, p3, 4) {
                        Err(e) => Err(e),
                        Ok((code, p4)) => match dtype_of(code as u32) {
                            None => Err(GgufError::UnknownTensorType(code as u32)),
                            Some(dtype) => match uint_at(data, p4, 8) {
                                Err(e) => Err(e),
                                Ok((off, end)) => if off > usize::MAX {
                                    Err(GgufError::DoesNotFitUsize(off as u64))
                                } else {
                                    Ok((
                                        TensorInfoModel {
                                            name,
                                            dtype,
                                            shape: dims.reverse(),
                                            offset: off as usize,
                                        },
                                        end,
                                    ))
                                },
                            },
                        },
                    },
                }
            },
        },
    }
}

/// `n` tensor-info records one after another from `pos`.
pub open spec fn tensors_at(data: Seq<u8>, pos: int, m: VersionedMagic, n: int) -> Result<(Seq<TensorInfoModel>, int), GgufError>
    decreases n,
{
    if n <= 0 {
        Ok((Seq::empty(), pos))
    } else {
        match tensors_at(data, pos, m, n - 1) {
            Err(e) => Err(e),
            Ok((ts, p)) => match tensor_at(data, p, m) {
                Err(e) => Err(e),
                Ok((t, end)) => Ok((ts.push(t), end)),
            },
        }
    }
}

/// The metadata entry at `pos`: key, value-type code, value.
pub open spec fn entry_at(data: Seq<u8>, pos: int, m: VersionedMagic) -> Result<((Seq<char>, ValueModel), int), GgufError> {
    match string_at(data, pos, m) {
        Err(e) => Err(e),
        Ok((key, p1)) => match uint_at(data, p1, 4) {
            Err(e) => Err(e),
            Ok((code, p2)) => match value_type_of(code as u32) {
                None => Err(GgufError::UnknownValueType(code as u32)),
                Some(t) => match value_at(data, p2, t, m, 0) {
                    Err(e) => Err(e),
                    Ok((v, end)) => Ok(((key, v), end)),
                },
            },
        },
    }
}

/// `n` metadata entries one after another from `pos`.
pub open spec fn entries_at(data: Seq<u8>, pos: int, m: VersionedMagic, n: int) -> Result<(Seq<(Seq<char>, ValueModel)>, int), GgufError>
    decreases n,
{
    if n <= 0 {
        Ok((Seq::empty(), pos))
    } else {
        match entries_at(data, pos, m, n - 1) {
            Err(e) => Err(e),
            Ok((es, p)) => match entry_at(data, p, m) {
                Err(e) => Err(e),
                Ok((en, end)) => Ok((es.push(en), end)),
            },
        }
    }
}

fn read_dim(reader: &mut Reader, magic: VersionedMagic) -> (r: Result<usize, GgufError>)
    requires
        old(reader).wf(),
    ensures
        final(reader).wf(),
        final(reader).bytes_spec() == old(reader).bytes_spec(),
        match dim_at(old(reader).bytes_spec(), old(reader).pos_spec(), magic) {
            Err(e) => r == Err::<usize, GgufError>(e),
            Ok((d, end)) => r == Ok::<usize, GgufError>(d) && final(reader).pos_spec() == end,
        },
{
    match magic {
        VersionedMagic::GgufV1 => {
            let v = match reader.uint(4) {
                Ok(v) => v,
                Err(e) => return Err(e),
            };
            proof {
                reveal_with_fuel(pow256, 5);
                assert(v < 0x1_0000_0000);
                assert(usize::MAX >= 0xffff_ffff);
            }
            Ok(v as usize)
        },
        VersionedMagic::GgufV2 | VersionedMagic::GgufV3 => {
            let v = match reader.uint(8) {
                Ok(v) => v,
                Err(e) => return Err(e),
            };
            if v > usize::MAX as u64 {
                return Err(GgufError::DoesNotFitUsize(v));
            }
            Ok(v as usize)
        },
    }
}

fn read_u32(reader: &mut Reader) -> (r: Result<u32, GgufError>)
    requires
        old(reader).wf(),
    ensures
        final(reader).wf(),
        final(reader).bytes_spec() == old(reader).bytes_spec(),
        match uint_at(old(reader).bytes_spec(), old(reader).pos_spec(), 4) {
            Err(e) => r == Err::<u32, GgufError>(e),
            Ok((v, end)) => r == Ok::<u32, GgufError>(v as u32) && v == r.unwrap()
                && final(reader).pos_spec() == end,
        },
{
    let v = match reader.uint(4) {
        Ok(v) => v,
        Err(e) => return Err(e),
    };
    proof {
        reveal_with_fuel(pow256, 5);
    }
    Ok(v as u32)
}

fn read_usize_u64(reader: &mut Reader) -> (r: Result<usize, GgufError>)
    requires
        old(reader).wf(),
    ensures
        final(reader).wf(),
        final(reader).bytes_spec() == old(reader).bytes_spec(),
        match uint_at(old(reader).bytes_spec(), old(reader).pos_spec(), 8) {
            Err(e) => r == Err::<usize, GgufError>(e),
            Ok((v, end)) => if v > usize::MAX {
                r == Err::<usize, GgufError>(GgufError::DoesNotFitUsize(v as u64))
            } else {
                r == Ok::<usize, GgufError>(v as usize) && final(reader).pos_spec() == end
            },
        },
{
    let v = match reader.uint(8) {
        Ok(v) => v,
        Err(e) => return Err(e),
    };
    if v > usize::MAX as u64 {
        return Err(GgufError::DoesNotFitUsize(v));
    }
    Ok(v as usize)
}

/// Reads one tensor-info record.
fn read_tensor_info(reader: &mut Reader, magic: VersionedMagic) -> (r: Result<(String, TensorInfo), GgufError>)
    requires
        old(reader).wf(),
    ensures
        final(reader).wf(),
        final(reader).bytes_spec() == old(reader).bytes_spec(),
        match tensor_at(old(reader).bytes_spec(), old(reader).pos_spec(), magic) {
            Err(e) => r == Err::<(String, TensorInfo), GgufError>(e),
            Ok((t, end)) => r is Ok && tensor_model(r.unwrap()) == t && final(reader).pos_spec() == end,
        },
{
    let ghost data = old(reader).bytes_spec();
    let name = match read_string(reader, magic) {
        Ok(n) => n,
        Err(e) => return Err(e),
    };
    let ghost p1 = reader.pos_spec();
    let n_dims = match read_u32(reader) {
        Ok(n) => n,
        Err(e) => return Err(e),
    };
    if n_dims > GGUF_MAX_TENSOR_DIMS {
        return Err(GgufError::TooManyDims(n_dims));
    }
    let ghost p2 = reader.pos_spec();
    let mut dims: Vec<usize> = Vec::new();
    let mut k: u32 = 0;
    while k < n_dims
        invariant
            reader.wf(),
            reader.bytes_spec() == data,
            data == old(reader).bytes_spec(),
            string_at(data, old(reader).pos_spec(), magic) == Ok::<(Seq<char>, int), GgufError>(
                (name@, p1),
            ),
            uint_at(data, p1, 4) == Ok::<(nat, int), GgufError>((n_dims as nat, p2)),
            n_dims <= GGUF_MAX_TENSOR_DIMS,
            k <= n_dims,
            dims_at(data, p2, magic, k as int) == Ok::<(Seq<usize>, int), GgufError>(
                (dims@, reader.pos_spec()),
            ),
        decreases n_dims - k,
    {
        let d = match read_dim(reader, magic) {
            Ok(d) => d,
            Err(e) => {
                proof {
                    lemma_dims_error_prefix(data, p2, magic, k + 1, n_dims as int);
                }
                return Err(e);
            },
        };
        dims.push(d);
        k = k + 1;
    }
    let mut shape: Vec<usize> = Vec::new();
    let mut j: usize = dims.len();
    while j > 0
        invariant
            j <= dims@.len(),
            shape@ == dims@.subrange(j as int, dims@.len() as int).reverse(),
        decreases j,
    {
        shape.push(dims[j - 1]);
        j = j - 1;
        assert(shape@ =~= dims@.subrange(j as int, dims@.len() as int).reverse());
    }
    assert(dims@.subrange(0, dims@.len() as int) =~= dims@);
    let code = match read_u32(reader) {
        Ok(c) => c,
        Err(e) => return Err(e),
    };
    let dtype = match read_dtype(code) {
        Ok(t) => t,
        Err(e) => return Err(e),
    };
    let offset = match read_usize_u64(reader) {
        Ok(o) => o,
        Err(e) => return Err(e),
    };
    Ok((name, TensorInfo { dtype, shape, offset }))
}

proof fn lemma_dims_error_prefix(data: Seq<u8>, pos: int, m: VersionedMagic, k: int, n: int)
    requires
        0 <= k <= n,
        dims_at(data, pos, m, k) is Err,
    ensures
        dims_at(data, pos, m, n) == dims_at(data, pos, m, k),
    decreases n - k,
{
    if k < n {
        lemma_dims_error_prefix(data, pos, m, k, n - 1);
    }
}

/// What a tensor table entry holds, as plain values.
pub open spec fn tensor_model(e: (String, TensorInfo)) -> TensorInfoModel {
    TensorInfoModel { name: e.0@, dtype: e.1.dtype, shape: e.1.shape@, offset: e.1.offset }
}

/// What a metadata table entry holds, as plain values.
pub open spec fn entry_model(e: (String, Value)) -> (Seq<char>, ValueModel) {
    (e.0@, e.1.model())
}

/// Reads one metadata entry.
fn read_entry(reader: &mut Reader, magic: VersionedMagic) -> (r: Result<(String, Value), GgufError>)
    requires
        old(reader).wf(),
    ensures
        final(reader).wf(),
        final(reader).bytes_spec() == old(reader).bytes_spec(),
        match entry_at(old(reader).bytes_spec(), old(reader).pos_spec(), magic) {
            Err(e) => r == Err::<(String, Value), GgufError>(e),
            Ok((en, end)) => r is Ok && entry_model(r.unwrap()) == en && final(reader).pos_spec() == end,
        },
{
    let key = match read_string(reader, magic) {
        Ok(k) => k,
        Err(e) => return Err(e),
    };
    let code = match read_u32(reader) {
        Ok(c) => c,
        Err(e) => return Err(e),
    };
    let t = match ValueType::from_u32(code) {
        Ok(t) => t,
        Err(e) => return Err(e),
    };
    let v = match read_value(reader, t, magic, 0) {
        Ok(v) => v,
        Err(e) => return Err(e),
    };
    Ok((key, v))
}

/// The key whose value overrides the data alignment.
pub open spec fn alignment_key() -> Seq<char> {
    seq!['g', 'e', 'n', 'e', 'r', 'a', 'l', '.', 'a', 'l', 'i', 'g', 'n', 'm', 'e', 'n', 't']
}

/// Index of the last entry with `key`, or -1: a later entry replaces an
/// earlier one with the same key.
pub open spec fn last_key_index(md: Seq<(Seq<char>, ValueModel)>, key: Seq<char>) -> int
    decreases md.len(),
{
    if md.len() == 0 {
        -1
    } else if md.last().0 == key {
        md.len() - 1
    } else {
        last_key_index(md.drop_last(), key)
    }
}

/// A value read as an unsigned integer: the unsigned types and booleans.
pub open spec fn as_u64_spec(v: ValueModel) -> Option<u64> {
    match v {
        ValueModel::U8(x) => Some(x as u64),
        ValueModel::U16(x) => Some(x as u64),
        ValueModel::U32(x) => Some(x as u64),
        ValueModel::U64(x) => Some(x),
        ValueModel::Bool(b) => Some(if b { 1u64 } else { 0u64 }),
        _ => None,
    }
}

/// The data alignment: `general.alignment` where it holds an unsigned
/// integer that fits `usize`, else the default.
pub open spec fn alignment_spec(md: Seq<(Seq<char>, ValueModel)>) -> int {
    let i = last_key_index(md, alignment_key());
    if i >= 0 {
        match as_u64_spec(md[i].1) {
            Some(v) => if v <= usize::MAX {
                v as int
            } else {
                DEFAULT_ALIGNMENT as int
            },
            None => DEFAULT_ALIGNMENT as int,
        }
    } else {
        DEFAULT_ALIGNMENT as int
    }
}

/// Where a tensor's bytes lie in the file, or why they cannot.
pub open spec fn tensor_span_spec(t: TensorInfoModel, data_offset: int, file_len: int) -> Result<(int, int), GgufError> {
    match byte_len_spec(t.dtype, t.shape) {
        Err(e) => Err(e),
        Ok(len) => if data_offset + t.offset > usize::MAX {
            Err(GgufError::TensorOffsetOverflow)
        } else if data_offset + t.offset + len > usize::MAX {
            Err(GgufError::ByteLengthOverflow)
        } else if data_offset + t.offset + len > file_len {
            Err(GgufError::TensorPastEnd)
        } else {
            Ok((data_offset + t.offset, data_offset + t.offset + len))
        },
    }
}

/// No later entry of `ts` has the name of entry `i`: it is the one that a
/// lookup by that name finds.
pub open spec fn effective(ts: Seq<TensorInfoModel>, i: int) -> bool {
    forall|j: int| i < j < ts.len() ==> ts[j].name != #[trigger] ts[i].name
}

/// The first effective tensor from index `i` on whose bytes do not fit.
pub open spec fn tensor_error_from(ts: Seq<TensorInfoModel>, data_offset: int, file_len: int, i: int) -> Option<GgufError>
    decreases ts.len() - i,
{
    if i < 0 || i >= ts.len() {
        None
    } else if effective(ts, i) && tensor_span_spec(ts[i], data_offset, file_len) is Err {
        Some(tensor_span_spec(ts[i], data_offset, file_len)->Err_0)
    } else {
        tensor_error_from(ts, data_offset, file_len, i + 1)
    }
}

/// The entries from index `i` on that a lookup by name can find: of each
/// name, its last entry, in file order.
pub open spec fn effective_from(ts: Seq<TensorInfoModel>, i: int) -> Seq<TensorInfoModel>
    decreases ts.len() - i,
{
    if i < 0 || i >= ts.len() {
        Seq::empty()
    } else if effective(ts, i) {
        seq![ts[i]] + effective_from(ts, i + 1)
    } else {
        effective_from(ts, i + 1)
    }
}

/// What a GGUF file holds, as plain values.
pub struct GgufView {
    pub magic: VersionedMagic,
    pub metadata: Seq<(Seq<char>, ValueModel)>,
    pub tensors: Seq<TensorInfoModel>,
    pub tensor_data_offset: int,
    pub file_len: int,
}

/// The format version named by the magic and version fields.
pub open spec fn magic_at(data: Seq<u8>) -> Result<(VersionedMagic, int), GgufError> {
    match uint_at(data, 0, 4) {
        Err(e) => Err(e),
        Ok((magic, p1)) => if magic != 0x4655_4747 && magic != 0x4747_5546 {
            Err(GgufError::UnknownMagic(magic as u32))
        } else {
            match uint_at(data, p1, 4) {
                Err(e) => Err(e),
                Ok((version, p2)) => if version == 1 {
                    Ok((VersionedMagic::GgufV1, p2))
                } else if version == 2 {
                    Ok((VersionedMagic::GgufV2, p2))
                } else if version == 3 {
                    Ok((VersionedMagic::GgufV3, p2))
                } else {
                    Err(GgufError::UnsupportedVersion(version as u32))
                },
            }
        },
    }
}

/// `a + b` clamped at `usize::MAX`.
pub open spec fn saturating_add_spec(a: int, b: int) -> int {
    if a + b > usize::MAX {
        usize::MAX as int
    } else {
        a + b
    }
}

/// The smallest multiple of `a` that is at least `p`.
pub open spec fn round_up(p: int, a: int) -> int {
    ((p + a - 1) / a) * a
}

/// The bytes that the declared tables need at least.
pub open spec fn header_need(m: VersionedMagic, tensor_count: int, metadata_count: int) -> int {
    saturating_add_spec(
        saturating_mul_spec(metadata_count, prefix_size_spec(m) + 5),
        saturating_mul_spec(tensor_count, prefix_size_spec(m) + 16),
    )
}

/// The version, tensor count, metadata count and where the tables start.
pub open spec fn header_at(data: Seq<u8>) -> Result<(VersionedMagic, int, int, int), GgufError> {
    match magic_at(data) {
        Err(e) => Err(e),
        Ok((m, p1)) => match length_at(data, p1, m) {
            Err(e) => Err(e),
            Ok((tc, p2)) => match length_at(data, p2, m) {
                Err(e) => Err(e),
                Ok((mc, p3)) => if tc > GGUF_MAX_ARRAY_ELEMENTS {
                    Err(GgufError::TensorCountTooLarge(tc as usize))
                } else if mc > GGUF_MAX_ARRAY_ELEMENTS {
                    Err(GgufError::MetadataCountTooLarge(mc as usize))
                } else if header_need(m, tc as int, mc as int) > data.len() - p3 {
                    Err(GgufError::HeaderTruncated)
                } else {
                    Ok((m, tc as int, mc as int, p3))
                },
            },
        },
    }
}

/// Where tensor data starts for tables that end at `p`, or why it cannot.
pub open spec fn data_offset_spec(md: Seq<(Seq<char>, ValueModel)>, p: int, file_len: int) -> Result<int, GgufError> {
    let a = alignment_spec(md);
    if a == 0 {
        Err(GgufError::ZeroAlignment)
    } else if round_up(p, a) > file_len {
        Err(GgufError::DataOffsetPastEnd)
    } else {
        Ok(round_up(p, a))
    }
}

/// What a GGUF file holds, or why it is refused.
pub open spec fn gguf_spec(data: Seq<u8>) -> Result<GgufView, GgufError> {
    match header_at(data) {
        Err(e) => Err(e),
        Ok((m, tc, mc, p3)) => match entries_at(data, p3, m, mc) {
            Err(e) => Err(e),
            Ok((md, p4)) => match tensors_at(data, p4, m, tc) {
                Err(e) => Err(e),
                Ok((ts, p5)) => match data_offset_spec(md, p5, data.len() as int) {
                    Err(e) => Err(e),
                    Ok(off) => match tensor_error_from(ts, off, data.len() as int, 0) {
                        Some(e) => Err(e),
                        None => Ok(
                            GgufView {
                                magic: m,
                                metadata: md,
                                tensors: effective_from(ts, 0),
                                tensor_data_offset: off,
                                file_len: data.len() as int,
                            },
                        ),
                    },
                },
            },
        },
    }
}

fn read_magic(reader: &mut Reader) -> (r: Result<VersionedMagic, GgufError>)
    requires
        old(reader).wf(),
        old(reader).pos_spec() == 0,
    ensures
        final(reader).wf(),
        final(reader).bytes_spec() == old(reader).bytes_spec(),
        match magic_at(old(reader).bytes_spec()) {
            Err(e) => r == Err::<VersionedMagic, GgufError>(e),
            Ok((m, end)) => r == Ok::<VersionedMagic, GgufError>(m) && final(reader).pos_spec() == end,
        },
{
    let magic = match read_u32(reader) {
        Ok(m) => m,
        Err(e) => return Err(e),
    };
    if magic != 0x4655_4747 && magic != 0x4747_5546 {
        return Err(GgufError::UnknownMagic(magic));
    }
    let version = match read_u32(reader) {
        Ok(v) => v,
        Err(e) => return Err(e),
    };
    if version == 1 {
        Ok(VersionedMagic::GgufV1)
    } else if version == 2 {
        Ok(VersionedMagic::GgufV2)
    } else if version == 3 {
        Ok(VersionedMagic::GgufV3)
    } else {
        Err(GgufError::UnsupportedVersion(version))
    }
}

fn saturating_add_usize(a: usize, b: usize) -> (r: usize)
    ensures
        r == saturating_add_spec(a as int, b as int),
{
    if a > usize::MAX - b {
        usize::MAX
    } else {
        a + b
    }
}

/// Where a tensor's bytes lie in a file of `file_len` bytes whose tensor
/// data starts at `data_offset`.
fn tensor_span(info: &TensorInfo, data_offset: usize, file_len: usize) -> (r: Result<(usize, usize), GgufError>)
    ensures
        match tensor_span_spec(
            TensorInfoModel { name: Seq::empty(), dtype: info.dtype, shape: info.shape@, offset: info.offset },
            data_offset as int,
            file_len as int,
        ) {
            Err(e) => r == Err::<(usize, usize), GgufError>(e),
            Ok((a, b)) => r == Ok::<(usize, usize), GgufError>((a as usize, b as usize)),
        },
{
    let len = match info.byte_len() {
        Ok(l) => l,
        Err(e) => return Err(e),
    };
    if info.offset > usize::MAX - data_offset {
        return Err(GgufError::TensorOffsetOverflow);
    }
    let start = data_offset + info.offset;
    if len > usize::MAX - start {
        return Err(GgufError::ByteLengthOverflow);
    }
    let end = start + len;
    if end > file_len {
        return Err(GgufError::TensorPastEnd);
    }
    Ok((start, end))
}

/// A parsed GGUF file: its version, metadata table, tensor-info table and
/// where tensor data starts. The metadata table keeps every entry in file
/// order (lookups find the last entry of a key); the tensor table keeps, of
/// each name, its last entry, in file order.
pub struct GgufModel {
    magic: VersionedMagic,
    metadata: Vec<(String, Value)>,
    tensors: Vec<(String, TensorInfo)>,
    tensor_data_offset: usize,
    file_len: usize,
}

/// The models of the metadata entries.
pub open spec fn entries_model(v: Seq<(String, Value)>) -> Seq<(Seq<char>, ValueModel)> {
    Seq::new(v.len(), |i: int| entry_model(v[i]))
}

/// The models of the tensor-info entries.
pub open spec fn tensors_model(v: Seq<(String, TensorInfo)>) -> Seq<TensorInfoModel> {
    Seq::new(v.len(), |i: int| tensor_model(v[i]))
}

impl GgufModel {
    /// What the model holds, as plain values.
    pub closed spec fn view_model(&self) -> GgufView {
        GgufView {
            magic: self.magic,
            metadata: entries_model(self.metadata@),
            tensors: tensors_model(self.tensors@),
            tensor_data_offset: self.tensor_data_offset as int,
            file_len: self.file_len as int,
        }
    }

    /// Parses the bytes of a GGUF file: header, metadata, tensor infos;
    /// then checks the data alignment and that every tensor's bytes lie
    /// inside the file.
    pub fn from_bytes(data: &[u8]) -> (r: Result<GgufModel, GgufError>)
        ensures
            match gguf_spec(data@) {
                Err(e) => r == Err::<GgufModel, GgufError>(e),
                Ok(v) => r is Ok && r.unwrap().view_model() == v,
            },
    {
        let mut reader = Reader::new(data);
        let (magic, tensor_count, metadata_count) = match read_header(&mut reader) {
            Ok(h) => h,
            Err(e) => return Err(e),
        };
        let metadata = match read_entries(&mut reader, magic, metadata_count) {
            Ok(m) => m,
            Err(e) => return Err(e),
        };
        let tensors = match read_tensor_infos(&mut reader, magic, tensor_count) {
            Ok(t) => t,
            Err(e) => return Err(e),
        };
        let tensor_data_offset = match data_offset(&metadata, reader.position(), data.len()) {
            Ok(o) => o,
            Err(e) => return Err(e),
        };
        match check_tensors(&tensors, tensor_data_offset, data.len()) {
            Ok(()) => {},
            Err(e) => return Err(e),
        }
        let tensors = effective_tensors(tensors);
        Ok(GgufModel { magic, metadata, tensors, tensor_data_offset, file_len: data.len() })
    }

    /// The format version.
    pub fn magic(&self) -> (r: VersionedMagic)
        ensures
            r == self.view_model().magic,
    {
        self.magic
    }

    /// The metadata entries, in file order.
    pub fn metadata(&self) -> (r: &[(String, Value)])
        ensures
            entries_model(r@) == self.view_model().metadata,
    {
        self.metadata.as_slice()
    }

    /// The tensor-info entries, one per name (its last), in file order.
    pub fn tensor_infos(&self) -> (r: &[(String, TensorInfo)])
        ensures
            tensors_model(r@) == self.view_model().tensors,
    {
        self.tensors.as_slice()
    }

    /// Where tensor data starts.
    pub fn tensor_data_offset(&self) -> (r: usize)
        ensures
            r == self.view_model().tensor_data_offset,
    {
        self.tensor_data_offset
    }

    /// Length of the file in bytes.
    pub fn file_len(&self) -> (r: usize)
        ensures
            r == self.view_model().file_len,
    {
        self.file_len
    }
}

proof fn lemma_entries_error_prefix(data: Seq<u8>, pos: int, m: VersionedMagic, k: int, n: int)
    requires
        0 <= k <= n,
        entries_at(data, pos, m, k) is Err,
    ensures
        entries_at(data, pos, m, n) == entries_at(data, pos, m, k),
    decreases n - k,
{
    if k < n {
        lemma_entries_error_prefix(data, pos, m, k, n - 1);
    }
}

proof fn lemma_tensors_error_prefix(data: Seq<u8>, pos: int, m: VersionedMagic, k: int, n: int)
    requires
        0 <= k <= n,
        tensors_at(data, pos, m, k) is Err,
    ensures
        tensors_at(data, pos, m, n) == tensors_at(data, pos, m, k),
    decreases n - k,
{
    if k < n {
        lemma_tensors_error_prefix(data, pos, m, k, n - 1);
    }
}

/// Keeps, of each tensor name, its last entry, in file order.
fn effective_tensors(tensors: Vec<(String, TensorInfo)>) -> (r: Vec<(String, TensorInfo)>)
    ensures
        tensors_model(r@) == effective_from(tensors_model(tensors@), 0),
{
    let ghost ts = tensors_model(tensors@);
    let n = tensors.len();
    let mut keep: Vec<bool> = Vec::new();
    let mut k: usize = 0;
    while k < n
        invariant
            n == tensors@.len(),
            ts == tensors_model(tensors@),
            k <= n,
            keep@.len() == k,
            forall|q: int| 0 <= q < k ==> keep@[q] == effective(ts, q),
        decreases n - k,
    {
        keep.push(is_effective(&tensors, k));
        k = k + 1;
    }
    let mut rest = tensors;
    let mut out: Vec<(String, TensorInfo)> = Vec::new();
    let mut idx: usize = 0;
    while idx < n
        invariant
            n == ts.len(),
            idx <= n,
            keep@.len() == n,
            forall|q: int| 0 <= q < n ==> keep@[q] == effective(ts, q),
            rest@.len() == n - idx,
            forall|q: int| 0 <= q < rest@.len() ==> tensor_model(#[trigger] rest@[q]) == ts[idx + q],
            tensors_model(out@) + effective_from(ts, idx as int) == effective_from(ts, 0),
        decreases n - idx,
    {
        let ghost before = rest@;
        let e = rest.remove(0);
        assert(tensor_model(e) == ts[idx as int]) by {
            assert(tensor_model(before[0]) == ts[idx + 0]);
        }
        assert forall|q: int| 0 <= q < rest@.len() implies tensor_model(#[trigger] rest@[q]) == ts[idx + 1 + q] by {
            assert(rest@[q] == before[q + 1]);
            assert(tensor_model(before[q + 1]) == ts[idx + (q + 1)]);
        }
        let ghost out0 = out@;
        if keep[idx] {
            out.push(e);
            assert(tensors_model(out@) =~= tensors_model(out0) + seq![ts[idx as int]]);
            assert(effective_from(ts, idx as int) == seq![ts[idx as int]] + effective_from(ts, idx + 1));
            assert(tensors_model(out@) + effective_from(ts, idx + 1) =~= tensors_model(out0) + effective_from(ts, idx as int));
        } else {
            assert(effective_from(ts, idx as int) == effective_from(ts, idx + 1));
        }
        idx = idx + 1;
    }
    assert(effective_from(ts, n as int) =~= Seq::<TensorInfoModel>::empty());
    assert(tensors_model(out@) + Seq::<TensorInfoModel>::empty() =~= tensors_model(out@));
    out
}

/// Whether no later entry has the name of entry `i`.
fn is_effective(tensors: &Vec<(String, TensorInfo)>, i: usize) -> (r: bool)
    requires
        i < tensors@.len(),
    ensures
        r == effective(tensors_model(tensors@), i as int),
{
    let ghost ts = tensors_model(tensors@);
    let n = tensors.len();
    let mut j: usize = i + 1;
    while j < n
        invariant
            ts == tensors_model(tensors@),
            n == tensors@.len(),
            i < j <= tensors@.len(),
            forall|k: int| i < k < j ==> ts[k].name != ts[i as int].name,
        decreases n - j,
    {
        if tensors[j].0.eq(&tensors[i].0) {
            assert(ts[j as int].name == ts[i as int].name);
            return false;
        }
        j = j + 1;
    }
    true
}

/// A metadata value read as an unsigned integer.
fn value_as_u64(v: &Value) -> (r: Option<u64>)
    ensures
        r == as_u64_spec(v.model()),
{
    match v {
        Value::U8(x) => Some(*x as u64),
        Value::U16(x) => Some(*x as u64),
        Value::U32(x) => Some(*x as u64),
        Value::U64(x) => Some(*x),
        Value::Bool(b) => Some(if *b { 1u64 } else { 0u64 }),
        _ => None,
    }
}

/// Index of the last entry with `key`.
fn last_index_of_key(md: &Vec<(String, Value)>, key: &str) -> (r: Option<usize>)
    ensures
        match r {
            Some(i) => i == last_key_index(entries_model(md@), key@),
            None => last_key_index(entries_model(md@), key@) == -1,
        },
        last_key_index(entries_model(md@), key@) < md@.len(),
{
    let ghost es = entries_model(md@);
    let mut i: usize = md.len();
    assert(es.take(es.len() as int) =~= es);
    while i > 0
        invariant
            es == entries_model(md@),
            i <= md@.len(),
            last_key_index(es, key@) == last_key_index(es.take(i as int), key@),
        decreases i,
    {
        assert(es.take(i as int).drop_last() =~= es.take(i - 1));
        if str_eq(md[i - 1].0.as_str(), key) {
            return Some(i - 1);
        }
        i = i - 1;
    }
    None
}

proof fn lemma_last_key_index_bound(md: Seq<(Seq<char>, ValueModel)>, key: Seq<char>)
    ensures
        -1 <= last_key_index(md, key) < md.len(),
    decreases md.len(),
{
    if md.len() > 0 {
        lemma_last_key_index_bound(md.drop_last(), key);
    }
}

/// The data alignment that the metadata sets.
fn alignment_of(md: &Vec<(String, Value)>) -> (r: usize)
    ensures
        r == alignment_spec(entries_model(md@)),
{
    let key = "general.alignment";
    proof {
        reveal_strlit("general.alignment");
        assert(key@ =~= alignment_key());
        lemma_last_key_index_bound(entries_model(md@), key@);
    }
    match last_index_of_key(md, key) {
        Some(i) => match value_as_u64(&md[i].1) {
            Some(v) => {
                if v <= usize::MAX as u64 {
                    v as usize
                } else {
                    DEFAULT_ALIGNMENT
                }
            },
            None => DEFAULT_ALIGNMENT,
        },
        None => DEFAULT_ALIGNMENT,
    }
}

fn read_header(reader: &mut Reader) -> (r: Result<(VersionedMagic, usize, usize), GgufError>)
    requires
        old(reader).wf(),
        old(reader).pos_spec() == 0,
    ensures
        final(reader).wf(),
        final(reader).bytes_spec() == old(reader).bytes_spec(),
        match header_at(old(reader).bytes_spec()) {
            Err(e) => r == Err::<(VersionedMagic, usize, usize), GgufError>(e),
            Ok((m, tc, mc, p)) => r == Ok::<(VersionedMagic, usize, usize), GgufError>(
                (m, tc as usize, mc as usize),
            ) && tc == r.unwrap().1 && mc == r.unwrap().2 && final(reader).pos_spec() == p,
        },
{
    let magic = match read_magic(reader) {
        Ok(m) => m,
        Err(e) => return Err(e),
    };
    let tensor_count = match read_length(reader, magic) {
        Ok(n) => n,
        Err(e) => return Err(e),
    };
    let metadata_count = match read_length(reader, magic) {
        Ok(n) => n,
        Err(e) => return Err(e),
    };
    if tensor_count > GGUF_MAX_ARRAY_ELEMENTS {
        return Err(GgufError::TensorCountTooLarge(tensor_count));
    }
    if metadata_count > GGUF_MAX_ARRAY_ELEMENTS {
        return Err(GgufError::MetadataCountTooLarge(metadata_count));
    }
    let prefix = magic.length_prefix_size();
    let needed = saturating_add_usize(
        saturating_mul_usize(metadata_count, prefix + 5),
        saturating_mul_usize(tensor_count, prefix + 16),
    );
    if needed > reader.remaining() {
        return Err(GgufError::HeaderTruncated);
    }
    Ok((magic, tensor_count, metadata_count))
}

fn read_entries(reader: &mut Reader, magic: VersionedMagic, n: usize) -> (r: Result<Vec<(String, Value)>, GgufError>)
    requires
        old(reader).wf(),
    ensures
        final(reader).wf(),
        final(reader).bytes_spec() == old(reader).bytes_spec(),
        match entries_at(old(reader).bytes_spec(), old(reader).pos_spec(), magic, n as int) {
            Err(e) => r == Err::<Vec<(String, Value)>, GgufError>(e),
            Ok((es, end)) => r is Ok && entries_model(r.unwrap()@) == es && final(reader).pos_spec() == end,
        },
{
    let ghost data = old(reader).bytes_spec();
    let ghost p0 = old(reader).pos_spec();
    let mut out: Vec<(String, Value)> = Vec::new();
    let mut i: usize = 0;
    assert(entries_model(out@) =~= Seq::<(Seq<char>, ValueModel)>::empty());
    while i < n
        invariant
            reader.wf(),
            reader.bytes_spec() == data,
            data == old(reader).bytes_spec(),
            p0 == old(reader).pos_spec(),
            i <= n,
            entries_at(data, p0, magic, i as int) == Ok::<(Seq<(Seq<char>, ValueModel)>, int), GgufError>(
                (entries_model(out@), reader.pos_spec()),
            ),
        decreases n - i,
    {
        let en = match read_entry(reader, magic) {
            Ok(en) => en,
            Err(e) => {
                proof {
                    lemma_entries_error_prefix(data, p0, magic, i + 1, n as int);
                }
                return Err(e);
            },
        };
        let ghost before = out@;
        out.push(en);
        assert(entries_model(out@) =~= entries_model(before).push(entry_model(en)));
        i = i + 1;
    }
    Ok(out)
}

fn read_tensor_infos(reader: &mut Reader, magic: VersionedMagic, n: usize) -> (r: Result<Vec<(String, TensorInfo)>, GgufError>)
    requires
        old(reader).wf(),
    ensures
        final(reader).wf(),
        final(reader).bytes_spec() == old(reader).bytes_spec(),
        match tensors_at(old(reader).bytes_spec(), old(reader).pos_spec(), magic, n as int) {
            Err(e) => r == Err::<Vec<(String, TensorInfo)>, GgufError>(e),
            Ok((ts, end)) => r is Ok && tensors_model(r.unwrap()@) == ts && final(reader).pos_spec() == end,
        },
{
    let ghost data = old(reader).bytes_spec();
    let ghost p0 = old(reader).pos_spec();
    let mut out: Vec<(String, TensorInfo)> = Vec::new();
    let mut i: usize = 0;
    assert(tensors_model(out@) =~= Seq::<TensorInfoModel>::empty());
    while i < n
        invariant
            reader.wf(),
            reader.bytes_spec() == data,
            data == old(reader).bytes_spec(),
            p0 == old(reader).pos_spec(),
            i <= n,
            tensors_at(data, p0, magic, i as int) == Ok::<(Seq<TensorInfoModel>, int), GgufError>(
                (tensors_model(out@), reader.pos_spec()),
            ),
        decreases n - i,
    {
        let t = match read_tensor_info(reader, magic) {
            Ok(t) => t,
            Err(e) => {
                proof {
                    lemma_tensors_error_prefix(data, p0, magic, i + 1, n as int);
                }
                return Err(e);
            },
        };
        let ghost before = out@;
        out.push(t);
        assert(tensors_model(out@) =~= tensors_model(before).push(tensor_model(t)));
        i = i + 1;
    }
    Ok(out)
}

fn data_offset(md: &Vec<(String, Value)>, pos: usize, file_len: usize) -> (r: Result<usize, GgufError>)
    ensures
        match data_offset_spec(entries_model(md@), pos as int, file_len as int) {
            Err(e) => r == Err::<usize, GgufError>(e),
            Ok(o) => r == Ok::<usize, GgufError>(o as usize) && o == r.unwrap(),
        },
{
    let alignment = alignment_of(md);
    if alignment == 0 {
        return Err(GgufError::ZeroAlignment);
    }
    let extra: usize = if pos % alignment != 0 {
        1
    } else {
        0
    };
    proof {
        assert(pos / alignment + extra <= usize::MAX) by (nonlinear_arith)
            requires
                alignment > 0,
                extra == 1 ==> pos % alignment != 0,
                extra <= 1,
                pos <= usize::MAX,
        ;
    }
    let q = pos / alignment + extra;
    proof {
        assert(q == (pos + alignment - 1) as int / alignment as int) by (nonlinear_arith)
            requires
                alignment > 0,
                q == pos / alignment + extra,
                extra == (if pos % alignment != 0 {
                    1int
                } else {
                    0int
                }),
        ;
    }
    if q > file_len / alignment {
        proof {
            assert(q * alignment > file_len) by (nonlinear_arith)
                requires
                    alignment > 0,
                    q > file_len / alignment,
            ;
        }
        return Err(GgufError::DataOffsetPastEnd);
    }
    proof {
        assert(q * alignment <= file_len) by (nonlinear_arith)
            requires
                alignment > 0,
                q <= file_len / alignment,
        ;
    }
    Ok(q * alignment)
}

fn check_tensors(tensors: &Vec<(String, TensorInfo)>, data_offset: usize, file_len: usize) -> (r: Result<(), GgufError>)
    ensures
        match tensor_error_from(tensors_model(tensors@), data_offset as int, file_len as int, 0) {
            Some(e) => r == Err::<(), GgufError>(e),
            None => r == Ok::<(), GgufError>(()),
        },
{
    let ghost ts = tensors_model(tensors@);
    let n = tensors.len();
    let mut k: usize = 0;
    while k < n
        invariant
            ts == tensors_model(tensors@),
            n == tensors@.len(),
            k <= n,
            tensor_error_from(ts, data_offset as int, file_len as int, 0) == tensor_error_from(
                ts,
                data_offset as int,
                file_len as int,
                k as int,
            ),
        decreases n - k,
    {
        let eff = is_effective(tensors, k);
        let ghost tm = TensorInfoModel {
            name: Seq::empty(),
            dtype: tensors@[k as int].1.dtype,
            shape: tensors@[k as int].1.shape@,
            offset: tensors@[k as int].1.offset,
        };
        assert(tensor_span_spec(ts[k as int], data_offset as int, file_len as int) == tensor_span_spec(
            tm,
            data_offset as int,
            file_len as int,
        ));
        if eff {
            match tensor_span(&tensors[k].1, data_offset, file_len) {
                Ok(_) => {},
                Err(e) => {
                    return Err(e);
                },
            }
        }
        k = k + 1;
    }
    Ok(())
}

/// The type of a value model.
pub open spec fn model_type(v: ValueModel) -> ValueType {
    match v {
        ValueModel::U8(_) => ValueType::U8,
        ValueModel::I8(_) => ValueType::I8,
        ValueModel::U16(_) => ValueType::U16,
        ValueModel::I16(_) => ValueType::I16,
        ValueModel::U32(_) => ValueType::U32,
        ValueModel::I32(_) => ValueType::I32,
        ValueModel::U64(_) => ValueType::U64,
        ValueModel::I64(_) => ValueType::I64,
        ValueModel::F32(_) => ValueType::F32,
        ValueModel::F64(_) => ValueType::F64,
        ValueModel::Bool(_) => ValueType::Bool,
        ValueModel::Str(_) => ValueType::String,
        ValueModel::Array(_) => ValueType::Array,
    }
}

impl Value {
    /// The value's type.
    pub fn value_type(&self) -> (r: ValueType)
        ensures
            r == model_type(self.model()),
    {
        match self {
            Value::U8(_) => ValueType::U8,
            Value::I8(_) => ValueType::I8,
            Value::U16(_) => ValueType::U16,
            Value::I16(_) => ValueType::I16,
            Value::U32(_) => ValueType::U32,
            Value::I32(_) => ValueType::I32,
            Value::U64(_) => ValueType::U64,
            Value::I64(_) => ValueType::I64,
            Value::F32(_) => ValueType::F32,
            Value::F64(_) => ValueType::F64,
            Value::Bool(_) => ValueType::Bool,
            Value::String(_) => ValueType::String,
            Value::Array(_) => ValueType::Array,
        }
    }

    /// The text of a string value.
    pub fn as_str(&self) -> (r: Option<&str>)
        ensures
            match self.model() {
                ValueModel::Str(t) => r is Some && r.unwrap()@ == t,
                _ => r is None,
            },
    {
        match self {
            Value::String(v) => Some(v.as_str()),
            _ => None,
        }
    }

    /// An unsigned integer or boolean value, widened to `u64`.
    pub fn as_u64(&self) -> (r: Option<u64>)
        ensures
            r == as_u64_spec(self.model()),
    {
        value_as_u64(self)
    }

    /// An unsigned integer or boolean value that fits `u32`.
    pub fn as_u32(&self) -> (r: Option<u32>)
        ensures
            r == match as_u64_spec(self.model()) {
                Some(v) => if v <= u32::MAX {
                    Some(v as u32)
                } else {
                    None
                },
                None => None,
            },
    {
        match value_as_u64(self) {
            Some(v) => if v <= u32::MAX as u64 {
                Some(v as u32)
            } else {
                None
            },
            None => None,
        }
    }

    /// The elements of an array value.
    pub fn as_array(&self) -> (r: Option<&[Value]>)
        ensures
            match self {
                Value::Array(v) => r is Some && r.unwrap()@ == v@,
                _ => r is None,
            },
    {
        match self {
            Value::Array(v) => Some(v.as_slice()),
            _ => None,
        }
    }
}

/// Index of the last tensor entry named `name`, or -1.
pub open spec fn last_tensor_index(ts: Seq<TensorInfoModel>, name: Seq<char>) -> int
    decreases ts.len(),
{
    if ts.len() == 0 {
        -1
    } else if ts.last().name == name {
        ts.len() - 1
    } else {
        last_tensor_index(ts.drop_last(), name)
    }
}

fn last_index_of_tensor(ts: &Vec<(String, TensorInfo)>, name: &str) -> (r: Option<usize>)
    ensures
        match r {
            Some(i) => i == last_tensor_index(tensors_model(ts@), name@) && i < ts@.len(),
            None => last_tensor_index(tensors_model(ts@), name@) == -1,
        },
{
    let ghost tm = tensors_model(ts@);
    let mut i: usize = ts.len();
    assert(tm.take(tm.len() as int) =~= tm);
    while i > 0
        invariant
            tm == tensors_model(ts@),
            i <= ts@.len(),
            last_tensor_index(tm, name@) == last_tensor_index(tm.take(i as int), name@),
        decreases i,
    {
        assert(tm.take(i as int).drop_last() =~= tm.take(i - 1));
        if str_eq(ts[i - 1].0.as_str(), name) {
            return Some(i - 1);
        }
        i = i - 1;
    }
    None
}

impl GgufModel {
    /// The value of the last metadata entry with `key`.
    pub fn metadata_get(&self, key: &str) -> (r: Option<&Value>)
        ensures
            match r {
                Some(v) => {
                    let i = last_key_index(self.view_model().metadata, key@);
                    i >= 0 && v.model() == self.view_model().metadata[i].1
                },
                None => last_key_index(self.view_model().metadata, key@) == -1,
            },
    {
        proof {
            lemma_last_key_index_bound(entries_model(self.metadata@), key@);
        }
        match last_index_of_key(&self.metadata, key) {
            Some(i) => Some(&self.metadata[i].1),
            None => None,
        }
    }

    /// The text of the string value under `key`.
    pub fn metadata_str(&self, key: &str) -> (r: Result<&str, GgufError>)
        ensures
            ({
                let i = last_key_index(self.view_model().metadata, key@);
                if i >= 0 && self.view_model().metadata[i].1 is Str {
                    r is Ok && r.unwrap()@ == self.view_model().metadata[i].1->Str_0
                } else {
                    r == Err::<&str, GgufError>(GgufError::MetadataType)
                }
            }),
    {
        match self.metadata_get(key) {
            Some(v) => match v.as_str() {
                Some(t) => Ok(t),
                None => Err(GgufError::MetadataType),
            },
            None => Err(GgufError::MetadataType),
        }
    }

    /// The value under `key` as a `u32`.
    pub fn metadata_u32(&self, key: &str) -> (r: Result<u32, GgufError>)
        ensures
            ({
                let i = last_key_index(self.view_model().metadata, key@);
                let u = if i >= 0 {
                    as_u64_spec(self.view_model().metadata[i].1)
                } else {
                    None
                };
                match u {
                    Some(v) => if v <= u32::MAX {
                        r == Ok::<u32, GgufError>(v as u32)
                    } else {
                        r == Err::<u32, GgufError>(GgufError::MetadataType)
                    },
                    None => r == Err::<u32, GgufError>(GgufError::MetadataType),
                }
            }),
    {
        match self.metadata_get(key) {
            Some(v) => match v.as_u32() {
                Some(x) => Ok(x),
                None => Err(GgufError::MetadataType),
            },
            None => Err(GgufError::MetadataType),
        }
    }

    /// The tensor named `name` (the last entry with that name), with its
    /// bytes taken from `data`, the file the model was parsed from.
    pub fn tensor<'a>(&'a self, data: &'a [u8], name: &str) -> (r: Result<TensorView<'a>, GgufError>)
        ensures
            ({
                let ts = self.view_model().tensors;
                let i = last_tensor_index(ts, name@);
                if i < 0 {
                    r == Err::<TensorView<'a>, GgufError>(GgufError::MissingTensor)
                } else {
                    match tensor_span_spec(ts[i], self.view_model().tensor_data_offset, data@.len() as int) {
                        Err(e) => r == Err::<TensorView<'a>, GgufError>(e),
                        Ok((a, b)) => r is Ok && r.unwrap().dtype == ts[i].dtype
                            && r.unwrap().shape@ == ts[i].shape
                            && r.unwrap().raw_bytes@ == data@.subrange(a, b),
                    }
                }
            }),
    {
        let i = match last_index_of_tensor(&self.tensors, name) {
            Some(i) => i,
            None => return Err(GgufError::MissingTensor),
        };
        let info = &self.tensors[i].1;
        let ghost tm = TensorInfoModel {
            name: Seq::empty(),
            dtype: info.dtype,
            shape: info.shape@,
            offset: info.offset,
        };
        assert(tensor_span_spec(tensors_model(self.tensors@)[i as int], self.tensor_data_offset as int, data@.len() as int)
            == tensor_span_spec(tm, self.tensor_data_offset as int, data@.len() as int));
        let (a, b) = match tensor_span(info, self.tensor_data_offset, data.len()) {
            Ok(span) => span,
            Err(e) => return Err(e),
        };
        Ok(TensorView { dtype: info.dtype, shape: info.shape.as_slice(), raw_bytes: slice_range(data, a, b) })
    }
}

proof fn lemma_last_tensor_is_effective(ts: Seq<TensorInfoModel>, name: Seq<char>)
    requires
        last_tensor_index(ts, name) >= 0,
    ensures
        last_tensor_index(ts, name) < ts.len(),
        ts[last_tensor_index(ts, name)].name == name,
        effective(ts, last_tensor_index(ts, name)),
    decreases ts.len(),
{
    if ts.last().name != name {
        lemma_last_tensor_is_effective(ts.drop_last(), name);
        let i = last_tensor_index(ts, name);
        assert(ts.drop_last()[i] == ts[i]);
        assert forall|j: int| i < j < ts.len() implies ts[j].name != #[trigger] ts[i].name by {
            if j < ts.len() - 1 {
                assert(ts.drop_last()[j] == ts[j]);
            }
        }
    }
}

proof fn lemma_effective_from_fit(ts: Seq<TensorInfoModel>, off: int, fl: int, i: int)
    requires
        0 <= i,
        tensor_error_from(ts, off, fl, i) is None,
    ensures
        forall|k: int|
            0 <= k < effective_from(ts, i).len() ==> tensor_span_spec(#[trigger] effective_from(ts, i)[k], off, fl) is Ok,
    decreases ts.len() - i,
{
    if i < ts.len() {
        lemma_effective_from_fit(ts, off, fl, i + 1);
        if effective(ts, i) {
            let tail = effective_from(ts, i + 1);
            assert forall|k: int| 0 <= k < effective_from(ts, i).len() implies tensor_span_spec(
                #[trigger] effective_from(ts, i)[k],
                off,
                fl,
            ) is Ok by {
                if k > 0 {
                    assert(effective_from(ts, i)[k] == tail[k - 1]);
                }
            }
        }
    }
}

/// Every tensor a parsed file lists has its bytes inside the file: of each
/// name only the entry that lookups find is kept, and loading checks each
/// of those.
pub proof fn lemma_listed_tensors_fit(data: Seq<u8>)
    requires
        gguf_spec(data) is Ok,
    ensures
        ({
            let v = gguf_spec(data)->Ok_0;
            forall|k: int|
                0 <= k < v.tensors.len() ==> tensor_span_spec(#[trigger] v.tensors[k], v.tensor_data_offset, data.len() as int)
                    is Ok
        }),
{
    match header_at(data) {
        Err(_) => {},
        Ok((m, tc, mc, p3)) => match entries_at(data, p3, m, mc) {
            Err(_) => {},
            Ok((md, p4)) => match tensors_at(data, p4, m, tc) {
                Err(_) => {},
                Ok((ts, p5)) => match data_offset_spec(md, p5, data.len() as int) {
                    Err(_) => {},
                    Ok(off) => {
                        lemma_effective_from_fit(ts, off, data.len() as int, 0);
                    },
                },
            },
        },
    }
}

/// Every tensor that a lookup by name finds in a parsed file has its bytes
/// inside that file: loading checks them all, so reading any of them later
/// cannot fail.
pub proof fn lemma_parsed_tensors_are_readable(data: Seq<u8>, name: Seq<char>)
    requires
        gguf_spec(data) is Ok,
        last_tensor_index(gguf_spec(data)->Ok_0.tensors, name) >= 0,
    ensures
        ({
            let v = gguf_spec(data)->Ok_0;
            let i = last_tensor_index(v.tensors, name);
            tensor_span_spec(v.tensors[i], v.tensor_data_offset, data.len() as int) is Ok
        }),
{
    let v = gguf_spec(data)->Ok_0;
    lemma_last_tensor_is_effective(v.tensors, name);
    lemma_listed_tensors_fit(data);
    let i = last_tensor_index(v.tensors, name);
    assert(tensor_span_spec(v.tensors[i], v.tensor_data_offset, data.len() as int) is Ok);
}


/// Half-precision tensors take two bytes per element: an `F16` tensor is
/// as long as a `Bf16` or an `I16` tensor of the same shape, half as long
/// as an `F32` one, and exactly twice its element count in bytes.
pub proof fn lemma_half_precision_byte_len(shape: Seq<usize>)
    ensures
        byte_len_spec(GgmlType::F16, shape) == byte_len_spec(GgmlType::Bf16, shape),
        byte_len_spec(GgmlType::F16, shape) == byte_len_spec(GgmlType::I16, shape),
        checked_product(shape) is Some && 2 * checked_product(shape)->Some_0 <= usize::MAX ==> byte_len_spec(
            GgmlType::F16,
            shape,
        ) == Ok::<usize, GgufError>((2 * checked_product(shape)->Some_0) as usize),
        checked_product(shape) is Some && 4 * checked_product(shape)->Some_0 <= usize::MAX ==> byte_len_spec(
            GgmlType::F32,
            shape,
        ) == Ok::<usize, GgufError>((4 * checked_product(shape)->Some_0) as usize),
{
}

} // verus!
