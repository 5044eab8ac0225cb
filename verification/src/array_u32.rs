//! The public operation set over 32-bit arrays, as an extension trait.
//! Every method probes the machine's capability and dispatches; its
//! contract is the sequential model, whichever kernel runs.
use vstd::prelude::*;

use crate::dispatch::{
    contains_u32_with, count_u32_with, detect_capability, find_u32_with, max_u32_with,
    min_u32_with,
};
use crate::model::{count_of, find_result, max_result_u32, min_result_u32, occurs};

verus! {

pub trait ArrayU32SimdExt {
    /// The sequence of elements every operation works over.
    spec fn elems(&self) -> Seq<u32>;

    /// Determines the minimum value inside the array.
    fn min_simd(&self) -> (r: Option<u32>)
        ensures
            min_result_u32(self.elems(), r),
    ;

    /// Determines the maximum value inside the array.
    fn max_simd(&self) -> (r: Option<u32>)
        ensures
            max_result_u32(self.elems(), r),
    ;

    /// Finds the given `needle` and returns its first occurrence's position
    /// or `None` if `needle` is not an element in the array.
    fn find_simd(&self, needle: u32) -> (r: Option<usize>)
        ensures
            find_result(self.elems(), needle, r),
    ;

    /// Returns `true` if `needle` is an element in the array.
    fn contains_simd(&self, needle: u32) -> (r: bool)
        ensures
            r == occurs(self.elems(), needle),
    ;

    /// Counts the occurrences of `element` in the array.
    fn count_simd(&self, element: u32) -> (r: usize)
        ensures
            r == count_of(self.elems(), element),
    ;
}

impl ArrayU32SimdExt for Vec<u32> {
    open spec fn elems(&self) -> Seq<u32> {
        self@
    }

    fn min_simd(&self) -> (r: Option<u32>) {
        min_u32_with(detect_capability(), self.as_slice())
    }

    fn max_simd(&self) -> (r: Option<u32>) {
        max_u32_with(detect_capability(), self.as_slice())
    }

    fn find_simd(&self, needle: u32) -> (r: Option<usize>) {
        find_u32_with(detect_capability(), self.as_slice(), needle)
    }

    fn contains_simd(&self, needle: u32) -> (r: bool) {
        contains_u32_with(detect_capability(), self.as_slice(), needle)
    }

    fn count_simd(&self, element: u32) -> (r: usize) {
        count_u32_with(detect_capability(), self.as_slice(), element)
    }
}

} // verus!
