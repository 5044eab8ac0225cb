use rand::rngs::StdRng;
use rand::{Rng, SeedableRng};

use simd_array::array_u32::ArrayU32SimdExt;
use simd_array::array_u8::ArrayU8SimdExt;
use simd_array::scalar::{
    contains_iter_u8, count_iter_u32, find_iter_u32, find_iter_u8, max_iter_u32, max_iter_u8,
    min_iter_u32, min_iter_u8,
};

#[test]
fn array_u32_test_array_u32() {
    let mut rng = StdRng::seed_from_u64(42);

    let vec: Vec<u32> = (0..100).map(|_| rng.next_u32()).collect();

    assert_eq!(vec.count_simd(42), count_iter_u32(&vec, 42));

    assert_eq!(vec.max_simd(), max_iter_u32(&vec));

    assert_eq!(vec.min_simd(), min_iter_u32(&vec));

    assert_eq!(vec.find_simd(42), find_iter_u32(&vec, 42));
}

#[test]
fn array_u8_test_array_u32() {
    let mut rng = StdRng::seed_from_u64(42);

    let vec: Vec<u8> = (0..200)
        .map(|_| (rng.next_u32() % u8::MAX as u32) as u8)
        .collect();

    assert!(vec.contains_simd(vec[199]));
    assert_eq!(vec.find_simd(vec[199]), find_iter_u8(&vec, vec[199]));

    assert_eq!(vec.max_simd(), max_iter_u8(&vec));
    assert_eq!(vec.min_simd(), min_iter_u8(&vec));

    assert!(contains_iter_u8(&vec, vec[0]));
}
