//! Flat tensor descriptors: dtype, four extents and four byte strides.
#![allow(non_camel_case_types)]

use vstd::prelude::*;

verus! {

/// The subset of ggml tensor types in use; `raw` gives each one's ggml code.
#[derive(Clone, Copy, Debug, PartialEq, Eq, Structural)]
pub enum GgmlType {
    F32,
    F16,
    Q4_0,
    Q4_1,
    Q5_0,
    Q5_1,
    Q8_0,
    Q8_1,
    Q2_K,
    Q3_K,
    Q4_K,
    Q5_K,
    Q6_K,
    Q8_K,
    I8,
    I16,
    I32,
    I64,
    F64,
    Bf16,
}

/// ggml's numeric code of each type.
pub open spec fn ggml_code(t: GgmlType) -> u32 {
    match t {
        GgmlType::F32 => 0,
        GgmlType::F16 => 1,
        GgmlType::Q4_0 => 2,
        GgmlType::Q4_1 => 3,
        GgmlType::Q5_0 => 6,
        GgmlType::Q5_1 => 7,
        GgmlType::Q8_0 => 8,
        GgmlType::Q8_1 => 9,
        GgmlType::Q2_K => 10,
        GgmlType::Q3_K => 11,
        GgmlType::Q4_K => 12,
        GgmlType::Q5_K => 13,
        GgmlType::Q6_K => 14,
        GgmlType::Q8_K => 15,
        GgmlType::I8 => 24,
        GgmlType::I16 => 25,
        GgmlType::I32 => 26,
        GgmlType::I64 => 27,
        GgmlType::F64 => 28,
        GgmlType::Bf16 => 30,
    }
}

/// Elements per quant block.
pub open spec fn block_size_spec(t: GgmlType) -> usize {
    match t {
        GgmlType::F32 | GgmlType::F16 | GgmlType::Bf16 | GgmlType::I8 | GgmlType::I16
        | GgmlType::I32 | GgmlType::I64 | GgmlType::F64 => 1,
        GgmlType::Q4_0 | GgmlType::Q4_1 | GgmlType::Q5_0 | GgmlType::Q5_1 | GgmlType::Q8_0
        | GgmlType::Q8_1 => 32,
        GgmlType::Q2_K | GgmlType::Q3_K | GgmlType::Q4_K | GgmlType::Q5_K | GgmlType::Q6_K
        | GgmlType::Q8_K => 256,
    }
}

/// Bytes per quant block.
pub open spec fn type_size_spec(t: GgmlType) -> usize {
    match t {
        GgmlType::F32 => 4,
        GgmlType::F16 => 2,
        GgmlType::Bf16 => 2,
        GgmlType::F64 => 8,
        GgmlType::I8 => 1,
        GgmlType::I16 => 2,
        GgmlType::I32 => 4,
        GgmlType::I64 => 8,
        GgmlType::Q4_0 => 18,
        GgmlType::Q4_1 => 20,
        GgmlType::Q5_0 => 22,
        GgmlType::Q5_1 => 24,
        GgmlType::Q8_0 => 34,
        GgmlType::Q8_1 => 36,
        GgmlType::Q2_K => 82,
        GgmlType::Q3_K => 110,
        GgmlType::Q4_K => 144,
        GgmlType::Q5_K => 176,
        GgmlType::Q6_K => 210,
        GgmlType::Q8_K => 292,
    }
}

/// ggml's name of each type.
pub open spec fn type_name_spec(t: GgmlType) -> Seq<char> {
    match t {
        GgmlType::F32 => "f32"@,
        GgmlType::F16 => "f16"@,
        GgmlType::Q4_0 => "q4_0"@,
        GgmlType::Q4_1 => "q4_1"@,
        GgmlType::Q5_0 => "q5_0"@,
        GgmlType::Q5_1 => "q5_1"@,
        GgmlType::Q8_0 => "q8_0"@,
        GgmlType::Q8_1 => "q8_1"@,
        GgmlType::Q2_K => "q2_K"@,
        GgmlType::Q3_K => "q3_K"@,
        GgmlType::Q4_K => "q4_K"@,
        GgmlType::Q5_K => "q5_K"@,
        GgmlType::Q6_K => "q6_K"@,
        GgmlType::Q8_K => "q8_K"@,
        GgmlType::I8 => "i8"@,
        GgmlType::I16 => "i16"@,
        GgmlType::I32 => "i32"@,
        GgmlType::I64 => "i64"@,
        GgmlType::F64 => "f64"@,
        GgmlType::Bf16 => "bf16"@,
    }
}

impl GgmlType {
    /// ggml's name of the type.
    pub fn name(self) -> (r: &'static str)
        ensures
            r@ == type_name_spec(self),
    {
        match self {
            GgmlType::F32 => "f32",
            GgmlType::F16 => "f16",
            GgmlType::Q4_0 => "q4_0",
            GgmlType::Q4_1 => "q4_1",
            GgmlType::Q5_0 => "q5_0",
            GgmlType::Q5_1 => "q5_1",
            GgmlType::Q8_0 => "q8_0",
            GgmlType::Q8_1 => "q8_1",
            GgmlType::Q2_K => "q2_K",
            GgmlType::Q3_K => "q3_K",
            GgmlType::Q4_K => "q4_K",
            GgmlType::Q5_K => "q5_K",
            GgmlType::Q6_K => "q6_K",
            GgmlType::Q8_K => "q8_K",
            GgmlType::I8 => "i8",
            GgmlType::I16 => "i16",
            GgmlType::I32 => "i32",
            GgmlType::I64 => "i64",
            GgmlType::F64 => "f64",
            GgmlType::Bf16 => "bf16",
        }
    }

    /// ggml's numeric code of the type.
    pub fn raw(self) -> (r: u32)
        ensures
            r == ggml_code(self),
    {
        match self {
            GgmlType::F32 => 0,
            GgmlType::F16 => 1,
            GgmlType::Q4_0 => 2,
            GgmlType::Q4_1 => 3,
            GgmlType::Q5_0 => 6,
            GgmlType::Q5_1 => 7,
            GgmlType::Q8_0 => 8,
            GgmlType::Q8_1 => 9,
            GgmlType::Q2_K => 10,
            GgmlType::Q3_K => 11,
            GgmlType::Q4_K => 12,
            GgmlType::Q5_K => 13,
            GgmlType::Q6_K => 14,
            GgmlType::Q8_K => 15,
            GgmlType::I8 => 24,
            GgmlType::I16 => 25,
            GgmlType::I32 => 26,
            GgmlType::I64 => 27,
            GgmlType::F64 => 28,
            GgmlType::Bf16 => 30,
        }
    }

    /// Decode the raw u32 of a GGUF tensor-info record: the type whose code
    /// it is, or `None` when no supported type has that code.
    pub fn from_raw(raw: u32) -> (r: Option<GgmlType>)
        ensures
            match r {
                Some(t) => ggml_code(t) == raw,
                None => forall|t: GgmlType| ggml_code(t) != raw,
            },
    {
        match raw {
            0 => Some(GgmlType::F32),
            1 => Some(GgmlType::F16),
            2 => Some(GgmlType::Q4_0),
            3 => Some(GgmlType::Q4_1),
            6 => Some(GgmlType::Q5_0),
            7 => Some(GgmlType::Q5_1),
            8 => Some(GgmlType::Q8_0),
            9 => Some(GgmlType::Q8_1),
            10 => Some(GgmlType::Q2_K),
            11 => Some(GgmlType::Q3_K),
            12 => Some(GgmlType::Q4_K),
            13 => Some(GgmlType::Q5_K),
            14 => Some(GgmlType::Q6_K),
            15 => Some(GgmlType::Q8_K),
            24 => Some(GgmlType::I8),
            25 => Some(GgmlType::I16),
            26 => Some(GgmlType::I32),
            27 => Some(GgmlType::I64),
            28 => Some(GgmlType::F64),
            30 => Some(GgmlType::Bf16),
            _ => None,
        }
    }

    /// Block size in elements.
    pub fn block_size(self) -> (r: usize)
        ensures
            r == block_size_spec(self),
    {
        match self {
            GgmlType::F32 | GgmlType::F16 | GgmlType::Bf16 | GgmlType::I8 | GgmlType::I16
            | GgmlType::I32 | GgmlType::I64 | GgmlType::F64 => 1,
            GgmlType::Q4_0 | GgmlType::Q4_1 | GgmlType::Q5_0 | GgmlType::Q5_1 | GgmlType::Q8_0
            | GgmlType::Q8_1 => 32,
            GgmlType::Q2_K | GgmlType::Q3_K | GgmlType::Q4_K | GgmlType::Q5_K | GgmlType::Q6_K
            | GgmlType::Q8_K => 256,
        }
    }

    /// Size of one quant block in bytes.
    pub fn type_size(self) -> (r: usize)
        ensures
            r == type_size_spec(self),
    {
        match self {
            GgmlType::F32 => 4,
            GgmlType::F16 => 2,
            GgmlType::Bf16 => 2,
            GgmlType::F64 => 8,
            GgmlType::I8 => 1,
            GgmlType::I16 => 2,
            GgmlType::I32 => 4,
            GgmlType::I64 => 8,
            GgmlType::Q4_0 => 18,
            GgmlType::Q4_1 => 20,
            GgmlType::Q5_0 => 22,
            GgmlType::Q5_1 => 24,
            GgmlType::Q8_0 => 34,
            GgmlType::Q8_1 => 36,
            GgmlType::Q2_K => 82,
            GgmlType::Q3_K => 110,
            GgmlType::Q4_K => 144,
            GgmlType::Q5_K => 176,
            GgmlType::Q6_K => 210,
            GgmlType::Q8_K => 292,
        }
    }
}

/// Decoding a type's code gives the type back; distinct types have
/// distinct codes.
pub proof fn lemma_code_round_trip(t: GgmlType, u: GgmlType)
    ensures
        ggml_code(t) == ggml_code(u) ==> t == u,
        block_size_spec(t) >= 1,
        type_size_spec(t) >= 1,
{
}

/// Product of the four extents.
pub open spec fn n_elements_spec(ne: [i64; 4]) -> int {
    ne[0] * ne[1] * ne[2] * ne[3]
}

/// Contiguous row-major strides of a tensor of type `t` with extents `ne`.
pub open spec fn contiguous_strides_spec(t: GgmlType, ne: [i64; 4]) -> Seq<int> {
    let nb0 = type_size_spec(t) as int;
    let nb1 = nb0 * ne[0] / block_size_spec(t) as int;
    let nb2 = nb1 * ne[1];
    let nb3 = nb2 * ne[2];
    seq![nb0, nb1, nb2, nb3]
}

/// Flat tensor descriptor: extents `ne` (fastest axis first) and byte
/// strides `nb`, with the data's offset into its backing buffer.
#[derive(Clone, Debug)]
pub struct Tensor {
    pub name: String,
    pub dtype: GgmlType,
    pub ne: [i64; 4],
    pub nb: [u64; 4],
    pub offset: usize,
}

impl Tensor {
    /// Number of elements in the tensor (product of `ne`).
    pub fn n_elements(&self) -> (r: i64)
        requires
            i64::MIN <= self.ne[0] * self.ne[1] <= i64::MAX,
            i64::MIN <= self.ne[0] * self.ne[1] * self.ne[2] <= i64::MAX,
            i64::MIN <= n_elements_spec(self.ne) <= i64::MAX,
        ensures
            r == n_elements_spec(self.ne),
    {
        self.ne[0] * self.ne[1] * self.ne[2] * self.ne[3]
    }

    /// Total byte length of the tensor data: whole blocks times block size.
    pub fn nbytes(&self) -> (r: usize)
        requires
            i64::MIN <= self.ne[0] * self.ne[1] <= i64::MAX,
            i64::MIN <= self.ne[0] * self.ne[1] * self.ne[2] <= i64::MAX,
            0 <= n_elements_spec(self.ne) <= i64::MAX,
            n_elements_spec(self.ne) <= usize::MAX,
            n_elements_spec(self.ne) / block_size_spec(self.dtype) as int * type_size_spec(
                self.dtype,
            ) as int <= usize::MAX,
        ensures
            r as int == n_elements_spec(self.ne) / block_size_spec(self.dtype) as int
                * type_size_spec(self.dtype) as int,
    {
        let bs = self.dtype.block_size();
        let ts = self.dtype.type_size();
        let n_signed = self.n_elements();
        let n = n_signed as usize;
        (n / bs) * ts
    }

    /// Contiguous row-major stride layout: `nb[0]` is the block's byte size,
    /// `nb[1] = nb[0] * ne[0] / block_size`, `nb[i] = nb[i-1] * ne[i-1]`.
    pub fn make_contiguous_strides(dtype: GgmlType, ne: [i64; 4]) -> (nb: [u64; 4])
        requires
            ne[0] >= 0 && ne[1] >= 0 && ne[2] >= 0,
            type_size_spec(dtype) * ne[0] <= u64::MAX,
            contiguous_strides_spec(dtype, ne)[1] * ne[1] <= u64::MAX,
            contiguous_strides_spec(dtype, ne)[2] * ne[2] <= u64::MAX,
        ensures
            nb@.map_values(|x: u64| x as int) == contiguous_strides_spec(dtype, ne),
    {
        let bs = dtype.block_size() as u64;
        let ts = dtype.type_size() as u64;
        let mut nb = [0u64; 4];
        nb[0] = ts;
        nb[1] = nb[0] * (ne[0] as u64) / bs;
        nb[2] = nb[1] * (ne[1] as u64);
        nb[3] = nb[2] * (ne[2] as u64);
        assert(nb@.map_values(|x: u64| x as int) =~= contiguous_strides_spec(dtype, ne));
        nb
    }
}


/// For a tensor whose rows hold whole blocks, the contiguous layout spans
/// exactly the tensor's bytes: `nb[3] * ne[3]` equals `nbytes`.
pub proof fn lemma_contiguous_strides_span_nbytes(t: GgmlType, ne: [i64; 4])
    requires
        ne[0] >= 0,
        ne[1] >= 0,
        ne[2] >= 0,
        ne[3] >= 0,
        (ne[0] as int) % (block_size_spec(t) as int) == 0,
    ensures
        n_elements_spec(ne) / block_size_spec(t) as int * type_size_spec(t) as int == contiguous_strides_spec(t, ne)[3]
            * ne[3],
{
    lemma_code_round_trip(t, t);
    let bs = block_size_spec(t) as int;
    let ts = type_size_spec(t) as int;
    let q = (ne[0] as int) / bs;
    vstd::arithmetic::div_mod::lemma_fundamental_div_mod(ne[0] as int, bs);
    assert(ne[0] == bs * q);
    let rest = q * ne[1] * ne[2] * ne[3];
    assert(n_elements_spec(ne) == bs * rest) by (nonlinear_arith)
        requires
            ne[0] == bs * q,
            rest == q * ne[1] * ne[2] * ne[3],
            n_elements_spec(ne) == ne[0] * ne[1] * ne[2] * ne[3],
    ;
    vstd::arithmetic::div_mod::lemma_div_multiples_vanish(rest, bs);
    assert(ts * ne[0] == bs * (ts * q)) by (nonlinear_arith)
        requires
            ne[0] == bs * q,
    ;
    vstd::arithmetic::div_mod::lemma_div_multiples_vanish(ts * q, bs);
    assert(rest * ts == ts * q * ne[1] * ne[2] * ne[3]) by (nonlinear_arith)
        requires
            rest == q * ne[1] * ne[2] * ne[3],
    ;
}

} // verus!
