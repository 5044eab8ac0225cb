use rand::rngs::StdRng;
use rand::{Rng, SeedableRng};

use simd_array::simd_extensions::{
    horizontal_max_u32_avx, horizontal_min_u32_avx, horizontal_sum_u32_avx,
    negative_horizontal_sum_u32_avx,
};

#[test]
fn test_horizontal_sum() {
    // Test all 1
    let input = vec![1u32; 8];
    let hsum = horizontal_sum_u32_avx(&input);
    assert_eq!(hsum, 8);

    // Test arbitrary values
    let input: Vec<u32> = vec![1, 10, 2, 15, 3, 20, 4, 25];
    let expected = input.iter().sum::<u32>();
    let hsum = horizontal_sum_u32_avx(&input);
    assert_eq!(hsum, expected);

    // Test all 0
    let input = vec![0u32; 8];
    assert_eq!(horizontal_sum_u32_avx(&input), 0);
}

#[test]
fn test_horizontal_min_max() {
    let mut rng = StdRng::seed_from_u64(42);

    for _ in 0..1000 {
        let input: Vec<u32> = (0..8).map(|_| rng.next_u32()).collect();

        let min = horizontal_min_u32_avx(&input);
        let real_min = input.iter().min().copied().unwrap();
        assert_eq!(min, real_min);

        let max = horizontal_max_u32_avx(&input);
        let real_max = input.iter().max().copied().unwrap();
        assert_eq!(max, real_max);
    }
}

#[test]
fn test_negative_horizontal_sum_of_masks() {
    // Eight all-ones equality masks sum to minus eight; negated, eight.
    let masks = vec![u32::MAX; 8];
    assert_eq!(negative_horizontal_sum_u32_avx(&masks), 8);

    // No hits at all.
    let masks = vec![0u32; 8];
    assert_eq!(negative_horizontal_sum_u32_avx(&masks), 0);

    // Three hits spread over the register.
    let masks = vec![u32::MAX, 0, u32::MAX, 0, 0, 0, u32::MAX, 0];
    assert_eq!(negative_horizontal_sum_u32_avx(&masks), 3);
}
