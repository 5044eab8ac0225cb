use simd_array::dispatch::{
    contains_u32_with, contains_u8_with, count_u32_with, find_u32_with, find_u8_with,
    max_u32_with, max_u8_with, min_u32_with, min_u8_with, SimdCapability,
};
use simd_array::scalar::{
    contains_iter_u32, contains_iter_u8, count_iter_u32, count_iter_u8, find_iter_u32,
    find_iter_u8, max_iter_u32, max_iter_u8, min_iter_u32, min_iter_u8,
};
use simd_array::u32_impl;
use simd_array::u8_impl;

/// A deterministic array that avoids the needle value 7.
fn base_u32(len: usize) -> Vec<u32> {
    (0..len).map(|i| 100 + (i as u32) * 3).collect()
}

fn base_u8(len: usize) -> Vec<u8> {
    (0..len).map(|i| 100u8.wrapping_add((i % 100) as u8)).collect()
}

#[test]
fn test_find_u8_needle_at_index_126() {
    // A byte array of length 127 with the needle only at index 126: the
    // half-width tier and the scalar tail must not lose the last element.
    let mut vec = vec![1u8; 127];
    vec[126] = 7;
    assert_eq!(u8_impl::find_avx(&vec, 7), Some(126));
    assert_eq!(find_iter_u8(&vec, 7), Some(126));
    assert!(u8_impl::contains_avx(&vec, 7));
}

#[test]
fn test_min_length_65_ascending() {
    // Length 65: one block of 32-bit lanes plus a remainder; the minimum
    // sits at index 0.
    let mut vec: Vec<u32> = (0..65).map(|i| 1000 + i as u32).collect();
    vec[0] = 3;
    assert_eq!(u32_impl::min_avx(&vec), Some(3));
    assert_eq!(min_iter_u32(&vec), Some(3));
}

#[test]
fn test_absent_needle_u32() {
    // The needle occurs nowhere: find is absent, contains is false, count
    // is zero, on both paths.
    let vec = base_u32(128);
    let needle = 7u32;
    assert_eq!(u32_impl::find_avx(&vec, needle), None);
    assert_eq!(find_iter_u32(&vec, needle), None);
    assert!(!u32_impl::contains_avx(&vec, needle));
    assert!(!contains_iter_u32(&vec, needle));
    assert_eq!(u32_impl::count_avx(&vec, needle), 0);
    assert_eq!(count_iter_u32(&vec, needle), 0);
}

#[test]
fn test_find_returns_lowest_of_two_indices() {
    // The needle is planted at indices 10 and 40: find returns 10.
    let mut vec = base_u32(70);
    vec[10] = 7;
    vec[40] = 7;
    assert_eq!(u32_impl::find_avx(&vec, 7), Some(10));
    assert_eq!(find_iter_u32(&vec, 7), Some(10));

    let mut bytes = vec![9u8; 200];
    bytes[33] = 7;
    bytes[150] = 7;
    assert_eq!(u8_impl::find_avx(&bytes, 7), Some(33));
    assert_eq!(find_iter_u8(&bytes, 7), Some(33));
}

#[test]
fn test_empty_arrays() {
    let vec: Vec<u32> = Vec::new();
    assert_eq!(u32_impl::min_avx(&vec), None);
    assert_eq!(u32_impl::max_avx(&vec), None);
    assert_eq!(u32_impl::find_avx(&vec, 7), None);
    assert!(!u32_impl::contains_avx(&vec, 7));
    assert_eq!(u32_impl::count_avx(&vec, 7), 0);
    assert_eq!(min_iter_u32(&vec), None);
    assert_eq!(max_iter_u32(&vec), None);

    let bytes: Vec<u8> = Vec::new();
    assert_eq!(u8_impl::min_avx(&bytes), None);
    assert_eq!(u8_impl::max_avx(&bytes), None);
    assert_eq!(u8_impl::find_avx(&bytes, 7), None);
    assert!(!u8_impl::contains_avx(&bytes, 7));
    assert_eq!(min_iter_u8(&bytes), None);
    assert_eq!(max_iter_u8(&bytes), None);
}

#[test]
fn test_equivalence_u32_boundary_lengths() {
    // Wide and scalar paths agree on every operation around the block
    // boundaries, needle present and absent.
    for len in [0usize, 1, 31, 32, 33, 63, 64, 65, 127, 128, 129, 256, 257] {
        let mut vec = base_u32(len);
        let needle = 7u32;
        assert_eq!(u32_impl::find_avx(&vec, needle), find_iter_u32(&vec, needle));
        assert_eq!(u32_impl::contains_avx(&vec, needle), contains_iter_u32(&vec, needle));
        assert_eq!(u32_impl::count_avx(&vec, needle), count_iter_u32(&vec, needle));
        assert_eq!(u32_impl::min_avx(&vec), min_iter_u32(&vec));
        assert_eq!(u32_impl::max_avx(&vec), max_iter_u32(&vec));

        if len > 0 {
            let last = len - 1;
            vec[last] = needle;
            assert_eq!(u32_impl::find_avx(&vec, needle), Some(last));
            assert_eq!(find_iter_u32(&vec, needle), Some(last));
            assert_eq!(u32_impl::count_avx(&vec, needle), 1);
        }
    }
}

#[test]
fn test_equivalence_u8_boundary_lengths() {
    for len in [0usize, 1, 31, 32, 33, 63, 64, 96, 127, 128, 129, 159, 160, 255, 256, 257] {
        let mut vec = base_u8(len);
        let needle = 7u8;
        assert_eq!(u8_impl::find_avx(&vec, needle), find_iter_u8(&vec, needle));
        assert_eq!(u8_impl::contains_avx(&vec, needle), contains_iter_u8(&vec, needle));
        assert_eq!(u8_impl::min_avx(&vec), min_iter_u8(&vec));
        assert_eq!(u8_impl::max_avx(&vec), max_iter_u8(&vec));

        if len > 0 {
            let last = len - 1;
            vec[last] = needle;
            assert_eq!(u8_impl::find_avx(&vec, needle), Some(last));
            assert_eq!(find_iter_u8(&vec, needle), Some(last));
        }
    }
}

#[test]
fn test_count_exact_occurrences() {
    // Arrays constructed with an exact, controlled number of occurrences.
    for (len, k) in [(40usize, 0usize), (40, 5), (64, 64), (100, 1), (129, 17)] {
        let mut vec = base_u32(len);
        for slot in 0..k {
            // spread the hits over the whole array
            let idx = slot * len / k.max(1);
            vec[idx] = 7;
        }
        assert_eq!(count_iter_u32(&vec, 7), k);
        assert_eq!(u32_impl::count_avx(&vec, 7), k);
    }

    let mut bytes = base_u8(300);
    for idx in [0usize, 50, 100, 150, 299] {
        bytes[idx] = 7;
    }
    assert_eq!(count_iter_u8(&bytes, 7), 5);
}

#[test]
fn test_dispatch_agrees_with_scalar_under_both_capabilities() {
    for cap in [SimdCapability::Avx2, SimdCapability::ScalarOnly] {
        for len in [0usize, 5, 31, 32, 33, 100, 127, 128, 200, 513] {
            let mut vec = base_u32(len);
            if len > 2 {
                vec[len / 2] = 7;
            }
            assert_eq!(min_u32_with(cap, &vec), min_iter_u32(&vec));
            assert_eq!(max_u32_with(cap, &vec), max_iter_u32(&vec));
            assert_eq!(find_u32_with(cap, &vec, 7), find_iter_u32(&vec, 7));
            assert_eq!(contains_u32_with(cap, &vec, 7), contains_iter_u32(&vec, 7));
            assert_eq!(count_u32_with(cap, &vec, 7), count_iter_u32(&vec, 7));

            let mut bytes = base_u8(len);
            if len > 2 {
                bytes[len / 2] = 7;
            }
            assert_eq!(min_u8_with(cap, &bytes), min_iter_u8(&bytes));
            assert_eq!(max_u8_with(cap, &bytes), max_iter_u8(&bytes));
            assert_eq!(find_u8_with(cap, &bytes, 7), find_iter_u8(&bytes, 7));
            assert_eq!(contains_u8_with(cap, &bytes, 7), contains_iter_u8(&bytes, 7));
        }
    }
}
