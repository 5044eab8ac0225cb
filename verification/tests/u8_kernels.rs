use std::collections::HashSet;

use rand::rngs::StdRng;
use rand::{Rng, RngExt, SeedableRng};

use simd_array::u8_impl::{contains_avx, find_avx, max_avx, min_avx};

fn random_array_with_count(rng: &mut StdRng, len: usize, count: usize, needle: u8) -> Vec<u8> {
    assert!(count <= len);

    let mut vec = random_array_with_value(rng, len, Some(needle), None);

    let mut indices: HashSet<usize> = HashSet::new();

    for _ in 0..count {
        loop {
            let next_index = (rng.next_u64() % len as u64) as usize;

            if !indices.contains(&next_index) {
                indices.insert(next_index);
                break;
            }
        }
    }

    assert_eq!(indices.len(), count);

    for index in indices {
        vec[index] = needle;
    }

    vec
}

pub fn random_array_with_value(
    rng: &mut StdRng,
    len: usize,
    value: Option<u8>,
    index: Option<usize>,
) -> Vec<u8> {
    let mut vec: Vec<u8> = (0..len)
        .map(|_| {
            let mut r = (rng.next_u32() % u8::MAX as u32) as u8;

            // If a custom value was provided, ensure it's not part of the
            // base array.
            if let Some(val) = value {
                while r == val {
                    r = (rng.next_u32() % u8::MAX as u32) as u8;
                }
            }

            r
        })
        .collect();

    if let (Some(val), Some(index)) = (value, index) {
        if index < len {
            vec[index] = val;
        }
    }

    vec
}

#[test]
fn test_contains_u8_fuzzy() {
    let mut rng = StdRng::seed_from_u64(42);

    for size in [16, 32, 64, 128, 256, 300, 512, 513, 1030, 8000] {
        for _ in 0..100 {
            let needle = (rng.next_u32() % u8::MAX as u32) as u8;
            let has = rng.random_bool(0.9);
            let count = if has { 1 } else { 0 };
            let vec = random_array_with_count(&mut rng, size, count, needle);

            let simd_contains = contains_avx(&vec, needle);
            if simd_contains != has {
                println!("{:?} {} {vec:?}", size, needle)
            }
            assert_eq!(simd_contains, has);
        }
    }
}

#[test]
fn u8_impl_test_array_find_fuzzy() {
    let mut rng = StdRng::seed_from_u64(42);

    for size in [32, 64, 127, 128, 256, 513] {
        let value = (rng.next_u32() % u8::MAX as u32) as u8;
        for index in 0..size {
            for has in [true, false] {
                let index = if has { Some(index) } else { None };

                let vec = random_array_with_value(&mut rng, size, Some(value), index);
                let simd_result = find_avx(&vec, value);
                assert_eq!(simd_result, index, "{value} in {vec:?}");

                let contains = contains_avx(&vec, value);
                assert_eq!(contains, has);
            }
        }
    }
}

#[test]
fn u8_impl_test_array_min_max_fuzzy() {
    let mut rng = StdRng::seed_from_u64(42);

    for len in [32, 64, 127, 128, 256, 513, 1024, 6256] {
        let vec = random_array_with_value(&mut rng, len, None, None);

        let simd_min = min_avx(&vec);
        let real_min = vec.iter().min().copied();
        assert_eq!(simd_min, real_min);

        let simd_max = max_avx(&vec);
        let real_max = vec.iter().max().copied();
        assert_eq!(simd_max, real_max);
    }
}
