//! Kernel-argument records of the Metal compute kernels: one record per
//! kernel family, fields in the order of the kernel-side declarations.
#![allow(non_snake_case)]

use vstd::prelude::*;

verus! {

/// Arguments of the `Bin` kernels.
pub struct KargsBin {
    pub ne00: i32,
    pub ne01: i32,
    pub ne02: i32,
    pub ne03: i32,
    pub nb00: u64,
    pub nb01: u64,
    pub nb02: u64,
    pub nb03: u64,
    pub ne10: i32,
    pub ne11: i32,
    pub ne12: i32,
    pub ne13: i32,
    pub nb10: u64,
    pub nb11: u64,
    pub nb12: u64,
    pub nb13: u64,
    pub ne0: i32,
    pub ne1: i32,
    pub ne2: i32,
    pub ne3: i32,
    pub nb0: u64,
    pub nb1: u64,
    pub nb2: u64,
    pub nb3: u64,
    pub offs: u64,
    pub o1: [u64; 8],
}

/// Arguments of the `Cpy` kernels.
pub struct KargsCpy {
    pub nk0: i64,
    pub ne00: i64,
    pub ne01: i64,
    pub ne02: i64,
    pub ne03: i64,
    pub nb00: u64,
    pub nb01: u64,
    pub nb02: u64,
    pub nb03: u64,
    pub ne0: i64,
    pub ne1: i64,
    pub ne2: i64,
    pub ne3: i64,
    pub nb0: u64,
    pub nb1: u64,
    pub nb2: u64,
    pub nb3: u64,
}

/// Arguments of the `MulMm` kernels.
pub struct KargsMulMm {
    pub ne00: i32,
    pub ne02: i32,
    pub nb01: u64,
    pub nb02: u64,
    pub nb03: u64,
    pub ne12: i32,
    pub nb10: u64,
    pub nb11: u64,
    pub nb12: u64,
    pub nb13: u64,
    pub ne0: i32,
    pub ne1: i32,
    pub r2: i16,
    pub r3: i16,
}

/// Arguments of the `MulMv` kernels.
pub struct KargsMulMv {
    pub ne00: i32,
    pub ne01: i32,
    pub ne02: i32,
    pub nb00: u64,
    pub nb01: u64,
    pub nb02: u64,
    pub nb03: u64,
    pub ne10: i32,
    pub ne11: i32,
    pub ne12: i32,
    pub nb10: u64,
    pub nb11: u64,
    pub nb12: u64,
    pub nb13: u64,
    pub ne0: i32,
    pub ne1: i32,
    pub nr0: i32,
    pub r2: i16,
    pub r3: i16,
}

/// Arguments of the `MulMmIdMap0` kernels.
pub struct KargsMulMmIdMap0 {
    pub ne02: i32,
    pub ne10: i32,
    pub ne11: i32,
    pub nb11: u64,
    pub nb12: u64,
    pub ne21: i32,
    pub ne20: i32,
    pub nb21: u64,
}

/// Arguments of the `MulMmId` kernels.
pub struct KargsMulMmId {
    pub ne00: i32,
    pub ne02: i32,
    pub nb01: u64,
    pub nb02: u64,
    pub nb03: u64,
    pub ne11: i32,
    pub nb10: u64,
    pub nb11: u64,
    pub nb12: u64,
    pub nb13: u64,
    pub ne20: i32,
    pub ne21: i32,
    pub ne0: i32,
    pub ne1: i32,
    pub r2: i16,
    pub r3: i16,
}

/// Arguments of the `Concat` kernels.
pub struct KargsConcat {
    pub ne00: i32,
    pub ne01: i32,
    pub ne02: i32,
    pub ne03: i32,
    pub nb00: u64,
    pub nb01: u64,
    pub nb02: u64,
    pub nb03: u64,
    pub ne10: i32,
    pub ne11: i32,
    pub ne12: i32,
    pub ne13: i32,
    pub nb10: u64,
    pub nb11: u64,
    pub nb12: u64,
    pub nb13: u64,
    pub ne0: i32,
    pub ne1: i32,
    pub ne2: i32,
    pub ne3: i32,
    pub nb0: u64,
    pub nb1: u64,
    pub nb2: u64,
    pub nb3: u64,
    pub dim: i32,
}

/// Arguments of the `AddId` kernels.
pub struct KargsAddId {
    pub ne0: i64,
    pub ne1: i64,
    pub nb01: u64,
    pub nb02: u64,
    pub nb11: u64,
    pub nb21: u64,
}

/// Arguments of the `Repeat` kernels.
pub struct KargsRepeat {
    pub ne00: i32,
    pub ne01: i32,
    pub ne02: i32,
    pub ne03: i32,
    pub nb00: u64,
    pub nb01: u64,
    pub nb02: u64,
    pub nb03: u64,
    pub ne0: i32,
    pub ne1: i32,
    pub ne2: i32,
    pub ne3: i32,
    pub nb0: u64,
    pub nb1: u64,
    pub nb2: u64,
    pub nb3: u64,
}

/// Arguments of the `Set` kernels.
pub struct KargsSet {
    pub nk0: i64,
    pub ne00: i64,
    pub ne01: i64,
    pub ne10: i64,
    pub ne11: i64,
    pub ne12: i64,
    pub nb10: u64,
    pub nb11: u64,
    pub nb12: u64,
    pub nb13: u64,
    pub nb1: u64,
    pub nb2: u64,
    pub nb3: u64,
    pub offs: u64,
    pub inplace: bool,
}

/// Arguments of the `FlashAttnExtPad` kernels.
pub struct KargsFlashAttnExtPad {
    pub ne11: i32,
    pub ne_12_2: i32,
    pub ne_12_3: i32,
    pub nb11: u64,
    pub nb12: u64,
    pub nb13: u64,
    pub nb21: u64,
    pub nb22: u64,
    pub nb23: u64,
    pub ne31: i32,
    pub ne32: i32,
    pub ne33: i32,
    pub nb31: u64,
    pub nb32: u64,
    pub nb33: u64,
}

/// Arguments of the `FlashAttnExtBlk` kernels.
pub struct KargsFlashAttnExtBlk {
    pub ne01: i32,
    pub ne30: i32,
    pub ne31: i32,
    pub ne32: i32,
    pub ne33: i32,
    pub nb31: u64,
    pub nb32: u64,
    pub nb33: u64,
}

/// Arguments of the `FlashAttnExtVecReduce` kernels.
pub struct KargsFlashAttnExtVecReduce {
    pub nrows: i32,
}

/// Arguments of the `MulMvId` kernels.
pub struct KargsMulMvId {
    pub nei0: i32,
    pub nei1: i32,
    pub nbi1: u64,
    pub ne00: i32,
    pub ne01: i32,
    pub ne02: i32,
    pub nb00: u64,
    pub nb01: u64,
    pub nb02: u64,
    pub ne10: i32,
    pub ne11: i32,
    pub ne12: i32,
    pub ne13: i32,
    pub nb10: u64,
    pub nb11: u64,
    pub nb12: u64,
    pub ne0: i32,
    pub ne1: i32,
    pub nb1: u64,
    pub nr0: i32,
}

/// Arguments of the `Sum` kernels.
pub struct KargsSum {
    pub np: u64,
}

/// Arguments of the `SumRows` kernels.
pub struct KargsSumRows {
    pub ne00: i64,
    pub ne01: i64,
    pub ne02: i64,
    pub ne03: i64,
    pub nb00: u64,
    pub nb01: u64,
    pub nb02: u64,
    pub nb03: u64,
    pub ne0: i64,
    pub ne1: i64,
    pub ne2: i64,
    pub ne3: i64,
    pub nb0: u64,
    pub nb1: u64,
    pub nb2: u64,
    pub nb3: u64,
}

/// Arguments of the `SsmConv` kernels.
pub struct KargsSsmConv {
    pub ne00: i64,
    pub ne01: i64,
    pub ne02: i64,
    pub nb00: u64,
    pub nb01: u64,
    pub nb02: u64,
    pub ne10: i64,
    pub ne11: i64,
    pub nb10: u64,
    pub nb11: u64,
    pub ne0: i64,
    pub ne1: i64,
    pub ne2: i64,
    pub nb0: u64,
    pub nb1: u64,
    pub nb2: u64,
}

/// Arguments of the `GatedDeltaNet` kernels.
pub struct KargsGatedDeltaNet {
    pub ne00: i32,
    pub ne01: i32,
    pub ne02: i32,
    pub ne03: i32,
    pub nb00: u64,
    pub nb01: u64,
    pub nb02: u64,
    pub nb03: u64,
    pub ne10: i32,
    pub ne11: i32,
    pub ne12: i32,
    pub ne13: i32,
    pub nb10: u64,
    pub nb11: u64,
    pub nb12: u64,
    pub nb13: u64,
    pub ne20: i32,
    pub ne21: i32,
    pub ne22: i32,
    pub ne23: i32,
    pub nb20: u64,
    pub nb21: u64,
    pub nb22: u64,
    pub nb23: u64,
    pub ns02: i32,
    pub ns12: i32,
    pub ns22: i32,
    pub ne0: i32,
    pub ne1: i32,
    pub ne2: i32,
    pub ne3: i32,
    pub nb0: u64,
    pub nb1: u64,
    pub nb2: u64,
    pub nb3: u64,
}

/// Arguments of the `GetRows` kernels.
pub struct KargsGetRows {
    pub ne00t: i32,
    pub ne00: i32,
    pub nb01: u64,
    pub nb02: u64,
    pub nb03: u64,
    pub ne10: i32,
    pub nb10: u64,
    pub nb11: u64,
    pub nb12: u64,
    pub nb1: u64,
    pub nb2: u64,
    pub nb3: u64,
}

/// Arguments of the `SetRows` kernels.
pub struct KargsSetRows {
    pub nk0: i32,
    pub ne01: i32,
    pub nb01: u64,
    pub nb02: u64,
    pub nb03: u64,
    pub ne11: i32,
    pub ne12: i32,
    pub nb10: u64,
    pub nb11: u64,
    pub nb12: u64,
    pub nb1: u64,
    pub nb2: u64,
    pub nb3: u64,
}

/// Arguments of the `Diag` kernels.
pub struct KargsDiag {
    pub ne00: i32,
    pub ne01: i32,
    pub ne02: i32,
    pub ne03: i32,
    pub nb00: u64,
    pub nb01: u64,
    pub nb02: u64,
    pub nb03: u64,
    pub ne0: i32,
    pub ne1: i32,
    pub ne2: i32,
    pub ne3: i32,
    pub nb0: u64,
    pub nb1: u64,
    pub nb2: u64,
    pub nb3: u64,
}

/// Arguments of the `Argsort` kernels.
pub struct KargsArgsort {
    pub ne00: i32,
    pub ne01: i32,
    pub ne02: i32,
    pub ne03: i32,
    pub nb00: u64,
    pub nb01: u64,
    pub nb02: u64,
    pub nb03: u64,
    pub ne0: i32,
    pub ne1: i32,
    pub ne2: i32,
    pub ne3: i32,
    pub top_k: i32,
}

/// Arguments of the `Argmax` kernels.
pub struct KargsArgmax {
    pub ne00: i64,
    pub nb01: u64,
}

/// Arguments of the `ArgsortMerge` kernels.
pub struct KargsArgsortMerge {
    pub ne00: i64,
    pub ne01: i64,
    pub ne02: i64,
    pub ne03: i64,
    pub nb00: u64,
    pub nb01: u64,
    pub nb02: u64,
    pub nb03: u64,
    pub ne0: i32,
    pub ne1: i32,
    pub ne2: i32,
    pub ne3: i32,
    pub top_k: i32,
    pub len: i32,
}

/// Arguments of the `Memset` kernels.
pub struct KargsMemset {
    pub val: i64,
}

/// Arguments of the `CountEqual` kernels.
pub struct KargsCountEqual {
    pub ne00: i32,
    pub ne01: i32,
    pub ne02: i32,
    pub ne03: i32,
    pub nb00: u64,
    pub nb01: u64,
    pub nb02: u64,
    pub nb03: u64,
    pub nb10: u64,
    pub nb11: u64,
    pub nb12: u64,
    pub nb13: u64,
}

/// Arguments of the `Pool1d` kernels.
pub struct KargsPool1d {
    pub k0: i32,
    pub s0: i32,
    pub p0: i32,
    pub iw: i64,
    pub ow: i64,
    pub np: i64,
}

/// Arguments of the `Pool2d` kernels.
pub struct KargsPool2d {
    pub k0: i32,
    pub k1: i32,
    pub s0: i32,
    pub s1: i32,
    pub p0: i32,
    pub p1: i32,
    pub ih: i64,
    pub iw: i64,
    pub oh: i64,
    pub ow: i64,
    pub np: i64,
}

/// Arguments of the `OptStepAdamw` kernels.
pub struct KargsOptStepAdamw {
    pub np: i64,
}

/// Arguments of the `OptStepSgd` kernels.
pub struct KargsOptStepSgd {
    pub np: i64,
}

/// Arguments of the `SsmScan` kernels.
pub struct KargsSsmScan {
    pub d_state: i64,
    pub d_inner: i64,
    pub n_head: i64,
    pub n_group: i64,
    pub n_seq_tokens: i64,
    pub n_seqs: i64,
    pub s_off: u64,
    pub nb00: u64,
    pub nb01: u64,
    pub nb02: u64,
    pub nb03: u64,
    pub nb10: u64,
    pub nb11: u64,
    pub nb12: u64,
    pub ns12: u64,
    pub nb13: u64,
    pub nb20: u64,
    pub nb21: u64,
    pub ns21: u64,
    pub nb22: u64,
    pub ne30: i64,
    pub nb31: u64,
    pub nb41: u64,
    pub nb42: u64,
    pub ns42: u64,
    pub nb43: u64,
    pub nb51: u64,
    pub nb52: u64,
    pub ns52: u64,
    pub nb53: u64,
    pub nb0: u64,
}

/// Arguments of the `SolveTri` kernels.
pub struct KargsSolveTri {
    pub ne00: i32,
    pub ne01: i32,
    pub ne02: i32,
    pub ne03: i32,
    pub nb00: u64,
    pub nb01: u64,
    pub nb02: u64,
    pub nb03: u64,
    pub ne10: i32,
    pub ne11: i32,
    pub ne12: i32,
    pub ne13: i32,
    pub nb10: u64,
    pub nb11: u64,
    pub nb12: u64,
    pub nb13: u64,
    pub ne0: i32,
    pub ne1: i32,
    pub ne2: i32,
    pub ne3: i32,
    pub nb0: u64,
    pub nb1: u64,
    pub nb2: u64,
    pub nb3: u64,
}

/// Arguments of the `Pad` kernels.
pub struct KargsPad {
    pub ne00: i64,
    pub ne01: i64,
    pub ne02: i64,
    pub ne03: i64,
    pub nb00: u64,
    pub nb01: u64,
    pub nb02: u64,
    pub nb03: u64,
    pub ne0: i64,
    pub ne1: i64,
    pub ne2: i64,
    pub ne3: i64,
    pub nb0: u64,
    pub nb1: u64,
    pub nb2: u64,
    pub nb3: u64,
}

/// Arguments of the `PadReflect1d` kernels.
pub struct KargsPadReflect1d {
    pub ne00: i64,
    pub ne01: i64,
    pub ne02: i64,
    pub ne03: i64,
    pub nb00: u64,
    pub nb01: u64,
    pub nb02: u64,
    pub nb03: u64,
    pub ne0: i64,
    pub ne1: i64,
    pub ne2: i64,
    pub ne3: i64,
    pub nb0: u64,
    pub nb1: u64,
    pub nb2: u64,
    pub nb3: u64,
    pub p0: i32,
    pub p1: i32,
}

/// Arguments of the `TimestepEmbedding` kernels.
pub struct KargsTimestepEmbedding {
    pub nb1: u64,
    pub dim: i32,
    pub max_period: i32,
}

/// Arguments of the `Tri` kernels.
pub struct KargsTri {
    pub ne00: i32,
    pub ne01: i32,
    pub ne02: i32,
    pub ne03: i32,
    pub nb00: u64,
    pub nb01: u64,
    pub nb02: u64,
    pub nb03: u64,
    pub ne0: i32,
    pub ne1: i32,
    pub ne2: i32,
    pub ne3: i32,
    pub nb0: u64,
    pub nb1: u64,
    pub nb2: u64,
    pub nb3: u64,
}

/// Arguments of the `CumsumBlk` kernels.
pub struct KargsCumsumBlk {
    pub ne00: i64,
    pub ne01: i64,
    pub ne02: i64,
    pub ne03: i64,
    pub nb00: u64,
    pub nb01: u64,
    pub nb02: u64,
    pub nb03: u64,
    pub net0: i64,
    pub net1: i64,
    pub net2: i64,
    pub net3: i64,
    pub nbt0: u64,
    pub nbt1: u64,
    pub nbt2: u64,
    pub nbt3: u64,
    pub outb: bool,
}

/// Arguments of the `CumsumAdd` kernels.
pub struct KargsCumsumAdd {
    pub ne00: i64,
    pub ne01: i64,
    pub ne02: i64,
    pub ne03: i64,
    pub nb00: u64,
    pub nb01: u64,
    pub nb02: u64,
    pub nb03: u64,
    pub net0: i64,
    pub net1: i64,
    pub net2: i64,
    pub net3: i64,
    pub nbt0: u64,
    pub nbt1: u64,
    pub nbt2: u64,
    pub nbt3: u64,
}

/// Arguments of the `ConvTranspose1d` kernels: one reserved word.
pub struct KargsConvTranspose1d {
    _reserved: u64,
}

/// Arguments of the `ConvTranspose2d` kernels.
pub struct KargsConvTranspose2d {
    pub ic: i32,
    pub ih: i32,
    pub iw: i32,
    pub kh: i32,
    pub kw: i32,
    pub oc: i32,
    pub s0: i32,
    pub nb0: u64,
    pub nb1: u64,
    pub nb2: u64,
}

/// Arguments of the `Conv2d` kernels.
pub struct KargsConv2d {
    pub nb00: u64,
    pub nb01: u64,
    pub nb02: u64,
    pub nb03: u64,
    pub nb10: u64,
    pub nb11: u64,
    pub nb12: u64,
    pub nb13: u64,
    pub nb0: u64,
    pub nb1: u64,
    pub nb2: u64,
    pub nb3: u64,
    pub iw: i32,
    pub ih: i32,
    pub kw: i32,
    pub kh: i32,
    pub ic: i32,
    pub oc: i32,
    pub ow: i32,
    pub oh: i32,
    pub n: i32,
    pub s0: i32,
    pub s1: i32,
    pub p0: i32,
    pub p1: i32,
    pub d0: i32,
    pub d1: i32,
}

/// Arguments of the `Conv3d` kernels.
pub struct KargsConv3d {
    pub iw: i32,
    pub ih: i32,
    pub id: i32,
    pub ow: i32,
    pub oh: i32,
    pub od: i32,
    pub kw: i32,
    pub kh: i32,
    pub kd: i32,
    pub s0: i32,
    pub s1: i32,
    pub s2: i32,
    pub p0: i32,
    pub p1: i32,
    pub p2: i32,
    pub d0: i32,
    pub d1: i32,
    pub d2: i32,
    pub ic: i32,
    pub n: i32,
    pub oc: i32,
    pub nb00: u64,
    pub nb01: u64,
    pub nb02: u64,
    pub nb03: u64,
    pub nb10: u64,
    pub nb11: u64,
    pub nb12: u64,
    pub nb13: u64,
    pub nb0: u64,
    pub nb1: u64,
    pub nb2: u64,
    pub nb3: u64,
}

} // verus!
