//! The CPU features that kernels dispatch on. Detection itself reads the
//! machine and happens outside this library; this is the record it fills.

use vstd::prelude::*;

verus! {

/// Which instruction-set extensions the running CPU offers.
#[derive(Debug, Clone, Copy, PartialEq, Eq, Structural)]
pub struct CpuFeatures {
    pub sse42: bool,
    pub avx2: bool,
    pub avx_vnni: bool,
    pub fma: bool,
    pub avx512f: bool,
    pub neon: bool,
    pub dotprod: bool,
    pub i8mm: bool,
}

impl CpuFeatures {
    /// No extension at all: what detection starts from.
    pub fn none() -> (r: CpuFeatures)
        ensures
            !r.sse42 && !r.avx2 && !r.avx_vnni && !r.fma && !r.avx512f && !r.neon && !r.dotprod && !r.i8mm,
    {
        CpuFeatures {
            sse42: false,
            avx2: false,
            avx_vnni: false,
            fma: false,
            avx512f: false,
            neon: false,
            dotprod: false,
            i8mm: false,
        }
    }
}

impl Default for CpuFeatures {
    fn default() -> (r: CpuFeatures)
        ensures
            r == CpuFeatures::none_spec(),
    {
        CpuFeatures::none()
    }
}

impl CpuFeatures {
    /// The record with no extension.
    pub open spec fn none_spec() -> CpuFeatures {
        CpuFeatures {
            sse42: false,
            avx2: false,
            avx_vnni: false,
            fma: false,
            avx512f: false,
            neon: false,
            dotprod: false,
            i8mm: false,
        }
    }
}

impl CpuFeatures {
    /// Whether AVX2 kernels may run.
    pub fn has_avx2(&self) -> (r: bool)
        ensures
            r == self.avx2,
    {
        self.avx2
    }

    /// Whether AVX-VNNI kernels may run.
    pub fn has_avx_vnni(&self) -> (r: bool)
        ensures
            r == self.avx_vnni,
    {
        self.avx_vnni
    }

    /// Whether fused multiply-add kernels may run.
    pub fn has_fma(&self) -> (r: bool)
        ensures
            r == self.fma,
    {
        self.fma
    }

    /// Whether the Arm dot-product kernels may run.
    pub fn has_dotprod(&self) -> (r: bool)
        ensures
            r == self.dotprod,
    {
        self.dotprod
    }

    /// Whether the Arm int8 matrix-multiply kernels may run.
    pub fn has_i8mm(&self) -> (r: bool)
        ensures
            r == self.i8mm,
    {
        self.i8mm
    }
}

} // verus!
