//! The capability dispatch layer.  Whether the wide kernels may run is a
//! property of the executing machine; it is probed once per call through a
//! narrow trusted boundary and folded into an explicit capability value.
//! Each public operation is then a pure two-branch choice over (capability,
//! array length): the wide kernel when the machine supports it and the
//! array is long enough to amortize the per-call overhead, the scalar
//! reference otherwise.  Both branches carry the same contract, so the
//! choice can never change a result.
use vstd::prelude::*;

use crate::model::{
    count_of, find_result, max_result_u32, max_result_u8, min_result_u32, min_result_u8, occurs,
};
use crate::scalar::{
    contains_iter_u32, contains_iter_u8, count_iter_u32, find_iter_u32, find_iter_u8,
    max_iter_u32, max_iter_u8, min_iter_u32, min_iter_u8,
};
use crate::u32_impl;
use crate::u8_impl;

verus! {

/// Minimum length before the wide 32-bit kernels pay off: one full block.
pub const AVX2_U32_MIN_SIZE: usize = 32;

/// Minimum length before the wide 8-bit kernels pay off: one full block.
pub const AVX2_U8_MIN_SIZE: usize = 128;

/// What the running machine offers: the 256-bit integer extension, or only
/// scalar code.  Probe it once and reuse the value.
#[derive(Clone, Copy)]
pub enum SimdCapability {
    /// The wide-register kernels may be used.
    Avx2,
    /// Only the scalar reference kernels may be used.
    ScalarOnly,
}

/// Relies on `raw_cpuid::CpuId::get_extended_feature_info` and
/// `ExtendedFeatures::has_avx2`: reads the structured extended feature leaf
/// of the `cpuid` instruction and reports its AVX2 bit.  The answer depends
/// on the machine alone, so nothing is stated about it.
#[verifier::external_body]
fn cpu_has_avx2() -> bool {
    match raw_cpuid::CpuId::new().get_extended_feature_info() {
        Some(features) => features.has_avx2(),
        None => false,
    }
}

/// Probe the running machine.  The probe is a handful of register reads;
/// hardware capability never changes within a process, so callers may reuse
/// the value or probe again freely.
pub fn detect_capability() -> SimdCapability {
    if cpu_has_avx2() {
        SimdCapability::Avx2
    } else {
        SimdCapability::ScalarOnly
    }
}

/// Minimum of a 32-bit array, by the best kernel the capability allows.
pub fn min_u32_with(cap: SimdCapability, array: &[u32]) -> (r: Option<u32>)
    ensures
        min_result_u32(array@, r),
{
    match cap {
        SimdCapability::Avx2 => {
            if array.len() >= AVX2_U32_MIN_SIZE {
                u32_impl::min_avx(array)
            } else {
                min_iter_u32(array)
            }
        },
        SimdCapability::ScalarOnly => min_iter_u32(array),
    }
}

/// Maximum of a 32-bit array, by the best kernel the capability allows.
pub fn max_u32_with(cap: SimdCapability, array: &[u32]) -> (r: Option<u32>)
    ensures
        max_result_u32(array@, r),
{
    match cap {
        SimdCapability::Avx2 => {
            if array.len() >= AVX2_U32_MIN_SIZE {
                u32_impl::max_avx(array)
            } else {
                max_iter_u32(array)
            }
        },
        SimdCapability::ScalarOnly => max_iter_u32(array),
    }
}

/// First index of `needle` in a 32-bit array, by the best kernel the
/// capability allows.
pub fn find_u32_with(cap: SimdCapability, array: &[u32], needle: u32) -> (r: Option<usize>)
    ensures
        find_result(array@, needle, r),
{
    match cap {
        SimdCapability::Avx2 => {
            if array.len() >= AVX2_U32_MIN_SIZE {
                u32_impl::find_avx(array, needle)
            } else {
                find_iter_u32(array, needle)
            }
        },
        SimdCapability::ScalarOnly => find_iter_u32(array, needle),
    }
}

/// Membership of `needle` in a 32-bit array, by the best kernel the
/// capability allows.
pub fn contains_u32_with(cap: SimdCapability, array: &[u32], needle: u32) -> (r: bool)
    ensures
        r == occurs(array@, needle),
{
    match cap {
        SimdCapability::Avx2 => {
            if array.len() >= AVX2_U32_MIN_SIZE {
                u32_impl::contains_avx(array, needle)
            } else {
                contains_iter_u32(array, needle)
            }
        },
        SimdCapability::ScalarOnly => contains_iter_u32(array, needle),
    }
}

/// Occurrence count of `element` in a 32-bit array, by the best kernel the
/// capability allows.  The wide kernel's mask encoding is exact only below
/// the lane modulus, so longer arrays fall back to the scalar count.
pub fn count_u32_with(cap: SimdCapability, array: &[u32], element: u32) -> (r: usize)
    ensures
        r == count_of(array@, element),
{
    match cap {
        SimdCapability::Avx2 => {
            if array.len() >= AVX2_U32_MIN_SIZE && array.len() <= 0xFFFF_FFFFusize {
                u32_impl::count_avx(array, element)
            } else {
                count_iter_u32(array, element)
            }
        },
        SimdCapability::ScalarOnly => count_iter_u32(array, element),
    }
}

/// Minimum of a byte array, by the best kernel the capability allows.
pub fn min_u8_with(cap: SimdCapability, array: &[u8]) -> (r: Option<u8>)
    ensures
        min_result_u8(array@, r),
{
    match cap {
        SimdCapability::Avx2 => {
            if array.len() >= AVX2_U8_MIN_SIZE {
                u8_impl::min_avx(array)
            } else {
                min_iter_u8(array)
            }
        },
        SimdCapability::ScalarOnly => min_iter_u8(array),
    }
}

/// Maximum of a byte array, by the best kernel the capability allows.
pub fn max_u8_with(cap: SimdCapability, array: &[u8]) -> (r: Option<u8>)
    ensures
        max_result_u8(array@, r),
{
    match cap {
        SimdCapability::Avx2 => {
            if array.len() >= AVX2_U8_MIN_SIZE {
                u8_impl::max_avx(array)
            } else {
                max_iter_u8(array)
            }
        },
        SimdCapability::ScalarOnly => max_iter_u8(array),
    }
}

/// First index of `needle` in a byte array, by the best kernel the
/// capability allows.
pub fn find_u8_with(cap: SimdCapability, array: &[u8], needle: u8) -> (r: Option<usize>)
    ensures
        find_result(array@, needle, r),
{
    match cap {
        SimdCapability::Avx2 => {
            if array.len() >= AVX2_U8_MIN_SIZE {
                u8_impl::find_avx(array, needle)
            } else {
                find_iter_u8(array, needle)
            }
        },
        SimdCapability::ScalarOnly => find_iter_u8(array, needle),
    }
}

/// Membership of `needle` in a byte array, by the best kernel the
/// capability allows.
pub fn contains_u8_with(cap: SimdCapability, array: &[u8], needle: u8) -> (r: bool)
    ensures
        r == occurs(array@, needle),
{
    match cap {
        SimdCapability::Avx2 => {
            if array.len() >= AVX2_U8_MIN_SIZE {
                u8_impl::contains_avx(array, needle)
            } else {
                contains_iter_u8(array, needle)
            }
        },
        SimdCapability::ScalarOnly => contains_iter_u8(array, needle),
    }
}

} // verus!
