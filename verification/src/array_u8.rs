//! The public operation set over byte arrays, as an extension trait.
//! The byte design point carries no count operation; see the dispatch
//! layer for the reasoning behind the thresholds.
use vstd::prelude::*;

use crate::dispatch::{contains_u8_with, detect_capability, find_u8_with, max_u8_with, min_u8_with};
use crate::model::{find_result, max_result_u8, min_result_u8, occurs};

verus! {

pub trait ArrayU8SimdExt {
    /// The sequence of bytes every operation works over.
    spec fn elems(&self) -> Seq<u8>;

    /// Determines the minimum value inside the array.
    fn min_simd(&self) -> (r: Option<u8>)
        ensures
            min_result_u8(self.elems(), r),
    ;

    /// Determines the maximum value inside the array.
    fn max_simd(&self) -> (r: Option<u8>)
        ensures
            max_result_u8(self.elems(), r),
    ;

    /// Finds the given `needle` and returns its first occurrence's position
    /// or `None` if `needle` is not an element in the array.
    fn find_simd(&self, needle: u8) -> (r: Option<usize>)
        ensures
            find_result(self.elems(), needle, r),
    ;

    /// Returns `true` if `needle` is an element in the array.
    fn contains_simd(&self, needle: u8) -> (r: bool)
        ensures
            r == occurs(self.elems(), needle),
    ;
}

impl ArrayU8SimdExt for Vec<u8> {
    open spec fn elems(&self) -> Seq<u8> {
        self@
    }

    fn min_simd(&self) -> (r: Option<u8>) {
        min_u8_with(detect_capability(), self.as_slice())
    }

    fn max_simd(&self) -> (r: Option<u8>) {
        max_u8_with(detect_capability(), self.as_slice())
    }

    fn find_simd(&self, needle: u8) -> (r: Option<usize>) {
        find_u8_with(detect_capability(), self.as_slice(), needle)
    }

    fn contains_simd(&self, needle: u8) -> (r: bool) {
        contains_u8_with(detect_capability(), self.as_slice(), needle)
    }
}

} // verus!
