//! CPU SIMD capability flags and the ordered capability levels.
use vstd::prelude::*;

verus! {

/// CPU feature flags.
#[derive(Debug, Clone, Copy, PartialEq, Eq, Structural)]
pub struct CpuFeatures {
    pub sse2: bool,
    pub ssse3: bool,
    pub sse41: bool,
    pub sse42: bool,
    pub avx: bool,
    pub avx2: bool,
    pub fma: bool,
    pub neon: bool,
}

/// SIMD capability level, ordered from none to the widest.
#[derive(Debug, Clone, Copy, PartialEq, Eq, PartialOrd, Ord, Structural)]
pub enum SimdLevel {
    Scalar,
    Sse2,
    Ssse3,
    Sse41,
    Sse42,
    Avx,
    Avx2,
    Neon,
}

/// The best x86 level a set of flags allows: the first present of AVX2, AVX,
/// SSE4.2, SSE4.1, SSSE3, SSE2, else scalar.
pub open spec fn spec_best_x86(f: CpuFeatures) -> SimdLevel {
    if f.avx2 { SimdLevel::Avx2 } else if f.avx { SimdLevel::Avx } else if f.sse42 { SimdLevel::Sse42 }
    else if f.sse41 { SimdLevel::Sse41 } else if f.ssse3 { SimdLevel::Ssse3 } else if f.sse2 { SimdLevel::Sse2 }
    else { SimdLevel::Scalar }
}

impl CpuFeatures {
    /// Whether any SIMD is available: SSE2 or NEON.
    pub fn has_simd(&self) -> (b: bool)
        ensures
            b == (self.sse2 || self.neon),
    {
        self.sse2 || self.neon
    }

    /// The best available x86 SIMD level.
    pub fn best_x86_simd(&self) -> (l: SimdLevel)
        ensures
            l == spec_best_x86(*self),
    {
        if self.avx2 {
            SimdLevel::Avx2
        } else if self.avx {
            SimdLevel::Avx
        } else if self.sse42 {
            SimdLevel::Sse42
        } else if self.sse41 {
            SimdLevel::Sse41
        } else if self.ssse3 {
            SimdLevel::Ssse3
        } else if self.sse2 {
            SimdLevel::Sse2
        } else {
            SimdLevel::Scalar
        }
    }
}

/// The best x86 level never names NEON.
pub proof fn lemma_best_x86_not_neon(f: CpuFeatures)
    ensures
        spec_best_x86(f) != SimdLevel::Neon,
{
}

impl SimdLevel {
    /// The level's name.
    pub fn as_str(&self) -> (s: &'static str)
        ensures
            s@ == (match *self {
                SimdLevel::Scalar => "scalar"@,
                SimdLevel::Sse2 => "sse2"@,
                SimdLevel::Ssse3 => "ssse3"@,
                SimdLevel::Sse41 => "sse4.1"@,
                SimdLevel::Sse42 => "sse4.2"@,
                SimdLevel::Avx => "avx"@,
                SimdLevel::Avx2 => "avx2"@,
                SimdLevel::Neon => "neon"@,
            }),
    {
        match self {
            SimdLevel::Scalar => "scalar",
            SimdLevel::Sse2 => "sse2",
            SimdLevel::Ssse3 => "ssse3",
            SimdLevel::Sse41 => "sse4.1",
            SimdLevel::Sse42 => "sse4.2",
            SimdLevel::Avx => "avx",
            SimdLevel::Avx2 => "avx2",
            SimdLevel::Neon => "neon",
        }
    }
}

} // verus!
