//! Scalar reference kernels: the naive sequential definition of every
//! operation.  They are the ground truth the wide kernels are held to, the
//! whole-array fallback of the dispatch layer, and the tail-processors that
//! finish the elements left over after the last full block.
//!
//! Each operation also exists in a `*_from` form that starts at a given
//! index, which is exactly what a tail needs.
use vstd::prelude::*;

use crate::model::{
    count_in, count_of, find_result, find_result_from, max_result_u32, max_result_u8,
    min_result_u32, min_result_u8, occurs, occurs_in,
};
use crate::model::{lemma_max_unique_u32, lemma_max_unique_u8, lemma_min_unique_u32,
    lemma_min_unique_u8};

verus! {

/// Lowest index `>= start` at which `needle` occurs, or `None`.
pub fn find_from_u32(array: &[u32], needle: u32, start: usize) -> (r: Option<usize>)
    requires
        start <= array@.len(),
    ensures
        find_result_from(array@, needle, start as int, r),
{
    let mut i: usize = start;
    while i < array.len()
        invariant
            start <= i <= array@.len(),
            !occurs_in(array@, needle, start as int, i as int),
        decreases array@.len() - i,
    {
        if array[i] == needle {
            return Some(i);
        }
        i += 1;
    }
    None
}

/// Whether `needle` occurs at any index `>= start`.
pub fn contains_from_u32(array: &[u32], needle: u32, start: usize) -> (r: bool)
    requires
        start <= array@.len(),
    ensures
        r == occurs_in(array@, needle, start as int, array@.len() as int),
{
    let mut i: usize = start;
    while i < array.len()
        invariant
            start <= i <= array@.len(),
            !occurs_in(array@, needle, start as int, i as int),
        decreases array@.len() - i,
    {
        if array[i] == needle {
            return true;
        }
        i += 1;
    }
    false
}

/// Number of occurrences of `needle` at indices `>= start`.
pub fn count_from_u32(array: &[u32], needle: u32, start: usize) -> (r: usize)
    requires
        start <= array@.len(),
    ensures
        r == count_in(array@, needle, start as int, array@.len() as int),
{
    let mut c: usize = 0;
    let mut i: usize = start;
    while i < array.len()
        invariant
            start <= i <= array@.len(),
            c <= i - start,
            c == count_in(array@, needle, start as int, i as int),
        decreases array@.len() - i,
    {
        if array[i] == needle {
            c += 1;
        }
        i += 1;
    }
    c
}

/// Minimum of the elements at indices `>= start`, or `None` if there are none.
pub fn min_from_u32(array: &[u32], start: usize) -> (r: Option<u32>)
    requires
        start <= array@.len(),
    ensures
        match r {
            Some(m) => start < array@.len() && occurs_in(
                array@,
                m,
                start as int,
                array@.len() as int,
            ) && (forall|j: int| start <= j < array@.len() ==> m <= array@[j]),
            None => start == array@.len(),
        },
{
    if start >= array.len() {
        return None;
    }
    let mut m = array[start];
    let mut i: usize = start + 1;
    while i < array.len()
        invariant
            start < i <= array@.len(),
            occurs_in(array@, m, start as int, i as int),
            forall|j: int| start <= j < i ==> m <= array@[j],
        decreases array@.len() - i,
    {
        if array[i] < m {
            m = array[i];
            assert(occurs_in(array@, m, start as int, i + 1));
        }
        i += 1;
    }
    Some(m)
}

/// Maximum of the elements at indices `>= start`, or `None` if there are none.
pub fn max_from_u32(array: &[u32], start: usize) -> (r: Option<u32>)
    requires
        start <= array@.len(),
    ensures
        match r {
            Some(m) => start < array@.len() && occurs_in(
                array@,
                m,
                start as int,
                array@.len() as int,
            ) && (forall|j: int| start <= j < array@.len() ==> m >= array@[j]),
            None => start == array@.len(),
        },
{
    if start >= array.len() {
        return None;
    }
    let mut m = array[start];
    let mut i: usize = start + 1;
    while i < array.len()
        invariant
            start < i <= array@.len(),
            occurs_in(array@, m, start as int, i as int),
            forall|j: int| start <= j < i ==> m >= array@[j],
        decreases array@.len() - i,
    {
        if array[i] > m {
            m = array[i];
            assert(occurs_in(array@, m, start as int, i + 1));
        }
        i += 1;
    }
    Some(m)
}

/// Linear scan for the first occurrence of `needle`.
pub fn find_iter_u32(array: &[u32], needle: u32) -> (r: Option<usize>)
    ensures
        find_result(array@, needle, r),
{
    find_from_u32(array, needle, 0)
}

/// Linear scan for membership of `needle`.
pub fn contains_iter_u32(array: &[u32], needle: u32) -> (r: bool)
    ensures
        r == occurs(array@, needle),
{
    contains_from_u32(array, needle, 0)
}

/// Linear count of the occurrences of `needle`.
pub fn count_iter_u32(array: &[u32], needle: u32) -> (r: usize)
    ensures
        r == count_of(array@, needle),
{
    count_from_u32(array, needle, 0)
}

/// Linear fold for the minimum element.
pub fn min_iter_u32(array: &[u32]) -> (r: Option<u32>)
    ensures
        min_result_u32(array@, r),
{
    let r = min_from_u32(array, 0);
    proof {
        if let Some(m) = r {
            lemma_min_unique_u32(array@, m);
        }
    }
    r
}

/// Linear fold for the maximum element.
pub fn max_iter_u32(array: &[u32]) -> (r: Option<u32>)
    ensures
        max_result_u32(array@, r),
{
    let r = max_from_u32(array, 0);
    proof {
        if let Some(m) = r {
            lemma_max_unique_u32(array@, m);
        }
    }
    r
}

/// Lowest index `>= start` at which `needle` occurs in a byte array.
pub fn find_from_u8(array: &[u8], needle: u8, start: usize) -> (r: Option<usize>)
    requires
        start <= array@.len(),
    ensures
        find_result_from(array@, needle, start as int, r),
{
    let mut i: usize = start;
    while i < array.len()
        invariant
            start <= i <= array@.len(),
            !occurs_in(array@, needle, start as int, i as int),
        decreases array@.len() - i,
    {
        if array[i] == needle {
            return Some(i);
        }
        i += 1;
    }
    None
}

/// Whether `needle` occurs in a byte array at any index `>= start`.
pub fn contains_from_u8(array: &[u8], needle: u8, start: usize) -> (r: bool)
    requires
        start <= array@.len(),
    ensures
        r == occurs_in(array@, needle, start as int, array@.len() as int),
{
    let mut i: usize = start;
    while i < array.len()
        invariant
            start <= i <= array@.len(),
            !occurs_in(array@, needle, start as int, i as int),
        decreases array@.len() - i,
    {
        if array[i] == needle {
            return true;
        }
        i += 1;
    }
    false
}

/// Number of occurrences of `needle` in a byte array at indices `>= start`.
pub fn count_from_u8(array: &[u8], needle: u8, start: usize) -> (r: usize)
    requires
        start <= array@.len(),
    ensures
        r == count_in(array@, needle, start as int, array@.len() as int),
{
    let mut c: usize = 0;
    let mut i: usize = start;
    while i < array.len()
        invariant
            start <= i <= array@.len(),
            c <= i - start,
            c == count_in(array@, needle, start as int, i as int),
        decreases array@.len() - i,
    {
        if array[i] == needle {
            c += 1;
        }
        i += 1;
    }
    c
}

/// Minimum byte at indices `>= start`, or `None` if there are none.
pub fn min_from_u8(array: &[u8], start: usize) -> (r: Option<u8>)
    requires
        start <= array@.len(),
    ensures
        match r {
            Some(m) => start < array@.len() && occurs_in(
                array@,
                m,
                start as int,
                array@.len() as int,
            ) && (forall|j: int| start <= j < array@.len() ==> m <= array@[j]),
            None => start == array@.len(),
        },
{
    if start >= array.len() {
        return None;
    }
    let mut m = array[start];
    let mut i: usize = start + 1;
    while i < array.len()
        invariant
            start < i <= array@.len(),
            occurs_in(array@, m, start as int, i as int),
            forall|j: int| start <= j < i ==> m <= array@[j],
        decreases array@.len() - i,
    {
        if array[i] < m {
            m = array[i];
            assert(occurs_in(array@, m, start as int, i + 1));
        }
        i += 1;
    }
    Some(m)
}

/// Maximum byte at indices `>= start`, or `None` if there are none.
pub fn max_from_u8(array: &[u8], start: usize) -> (r: Option<u8>)
    requires
        start <= array@.len(),
    ensures
        match r {
            Some(m) => start < array@.len() && occurs_in(
                array@,
                m,
                start as int,
                array@.len() as int,
            ) && (forall|j: int| start <= j < array@.len() ==> m >= array@[j]),
            None => start == array@.len(),
        },
{
    if start >= array.len() {
        return None;
    }
    let mut m = array[start];
    let mut i: usize = start + 1;
    while i < array.len()
        invariant
            start < i <= array@.len(),
            occurs_in(array@, m, start as int, i as int),
            forall|j: int| start <= j < i ==> m >= array@[j],
        decreases array@.len() - i,
    {
        if array[i] > m {
            m = array[i];
            assert(occurs_in(array@, m, start as int, i + 1));
        }
        i += 1;
    }
    Some(m)
}

/// Linear scan for the first occurrence of `needle` in a byte array.
pub fn find_iter_u8(array: &[u8], needle: u8) -> (r: Option<usize>)
    ensures
        find_result(array@, needle, r),
{
    find_from_u8(array, needle, 0)
}

/// Linear scan for membership of `needle` in a byte array.
pub fn contains_iter_u8(array: &[u8], needle: u8) -> (r: bool)
    ensures
        r == occurs(array@, needle),
{
    contains_from_u8(array, needle, 0)
}

/// Linear count of the occurrences of `needle` in a byte array.
pub fn count_iter_u8(array: &[u8], needle: u8) -> (r: usize)
    ensures
        r == count_of(array@, needle),
{
    count_from_u8(array, needle, 0)
}

/// Linear fold for the minimum byte.
pub fn min_iter_u8(array: &[u8]) -> (r: Option<u8>)
    ensures
        min_result_u8(array@, r),
{
    let r = min_from_u8(array, 0);
    proof {
        if let Some(m) = r {
            lemma_min_unique_u8(array@, m);
        }
    }
    r
}

/// Linear fold for the maximum byte.
pub fn max_iter_u8(array: &[u8]) -> (r: Option<u8>)
    ensures
        max_result_u8(array@, r),
{
    let r = max_from_u8(array, 0);
    proof {
        if let Some(m) = r {
            lemma_max_unique_u8(array@, m);
        }
    }
    r
}

} // verus!
