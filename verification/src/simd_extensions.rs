//! Horizontal reduction primitives: collapse one wide register of per-lane
//! partial results down to a single scalar.
//!
//! The integer min/max reductions walk the same shuffle-and-combine tree the
//! hardware uses — halve the register, combine lane-wise, fold the last
//! lanes — which is sound because min and max are associative and
//! commutative, so any traversal order that visits every lane once yields
//! the same scalar.  The sum reductions fold all lanes modulo the lane
//! width; the negating variant undoes the all-ones encoding of equality
//! masks, under which each hit contributes minus one to the lane sum.
use vstd::prelude::*;

use crate::lanes::{lane_sum_to, lane_sum_u32, lanewise_max_u8, lanewise_min_u8, load_lanes_u8};
use crate::model::{
    fold_max_u32, fold_max_u8, fold_min_u32, fold_min_u8, lemma_max_unique_u32,
    lemma_max_unique_u8, lemma_min_unique_u32, lemma_min_unique_u8, occurs,
};

verus! {

/// The lane width as an integer: lane arithmetic wraps at this modulus.
pub open spec fn lane_modulus() -> int {
    0x1_0000_0000
}

/// Calculates the horizontal sum of 8 32-bit lanes, wrapping at the lane
/// width, then negates the wrapped sum.  Under the all-ones mask encoding a
/// hit lane holds minus one, so the negated sum of accumulated masks is the
/// number of hits modulo the lane width.
pub fn negative_horizontal_sum_u32_avx(input: &Vec<u32>) -> (r: u32)
    requires
        input@.len() == 8,
    ensures
        r as int == (lane_modulus() - (lane_sum_u32(input@) % lane_modulus())) % lane_modulus(),
{
    let c0: u64 = input[0] as u64 + input[4] as u64;
    let c1: u64 = input[1] as u64 + input[5] as u64;
    let c2: u64 = input[2] as u64 + input[6] as u64;
    let c3: u64 = input[3] as u64 + input[7] as u64;
    let h0: u64 = c0 + c1;
    let h1: u64 = c2 + c3;
    let wrapped: u64 = (h0 + h1) % 0x1_0000_0000u64;
    let r: u32 = ((0x1_0000_0000u64 - wrapped) % 0x1_0000_0000u64) as u32;
    proof {
        reveal_with_fuel(lane_sum_to, 9);
        assert(lane_sum_u32(input@) == input@[0] + input@[1] + input@[2] + input@[3] + input@[4]
            + input@[5] + input@[6] + input@[7]);
    }
    r
}

/// Calculates the horizontal sum of 8 32-bit lanes, wrapping at the lane
/// width.
pub fn horizontal_sum_u32_avx(input: &Vec<u32>) -> (r: u32)
    requires
        input@.len() == 8,
    ensures
        r as int == lane_sum_u32(input@) % lane_modulus(),
{
    let c0: u64 = input[0] as u64 + input[4] as u64;
    let c1: u64 = input[1] as u64 + input[5] as u64;
    let c2: u64 = input[2] as u64 + input[6] as u64;
    let c3: u64 = input[3] as u64 + input[7] as u64;
    let h0: u64 = c0 + c1;
    let h1: u64 = c2 + c3;
    let r: u32 = ((h0 + h1) % 0x1_0000_0000u64) as u32;
    proof {
        reveal_with_fuel(lane_sum_to, 9);
        assert(lane_sum_u32(input@) == input@[0] + input@[1] + input@[2] + input@[3] + input@[4]
            + input@[5] + input@[6] + input@[7]);
    }
    r
}

/// Calculates the horizontal minimum of 8 32-bit lanes: halve to 4 lanes,
/// swap the halves and combine to 2, fold the last pair.
pub fn horizontal_min_u32_avx(a: &Vec<u32>) -> (r: u32)
    requires
        a@.len() == 8,
    ensures
        occurs(a@, r),
        forall|k: int| 0 <= k < a@.len() ==> r <= a@[k],
        r == fold_min_u32(a@),
{
    let v0 = if a[0] < a[4] { a[0] } else { a[4] };
    let v1 = if a[1] < a[5] { a[1] } else { a[5] };
    let v2 = if a[2] < a[6] { a[2] } else { a[6] };
    let v3 = if a[3] < a[7] { a[3] } else { a[7] };
    let w0 = if v0 < v2 { v0 } else { v2 };
    let w1 = if v1 < v3 { v1 } else { v3 };
    let r = if w0 < w1 { w0 } else { w1 };
    proof {
        assert(exists|i: int| 0 <= i < a@.len() && a@[i] == r);
        lemma_min_unique_u32(a@, r);
    }
    r
}

/// Calculates the horizontal maximum of 8 32-bit lanes.
pub fn horizontal_max_u32_avx(a: &Vec<u32>) -> (r: u32)
    requires
        a@.len() == 8,
    ensures
        occurs(a@, r),
        forall|k: int| 0 <= k < a@.len() ==> r >= a@[k],
        r == fold_max_u32(a@),
{
    let v0 = if a[0] > a[4] { a[0] } else { a[4] };
    let v1 = if a[1] > a[5] { a[1] } else { a[5] };
    let v2 = if a[2] > a[6] { a[2] } else { a[6] };
    let v3 = if a[3] > a[7] { a[3] } else { a[7] };
    let w0 = if v0 > v2 { v0 } else { v2 };
    let w1 = if v1 > v3 { v1 } else { v3 };
    let r = if w0 > w1 { w0 } else { w1 };
    proof {
        assert(exists|i: int| 0 <= i < a@.len() && a@[i] == r);
        lemma_max_unique_u32(a@, r);
    }
    r
}

/// Calculates the horizontal minimum of 32 8-bit lanes: combine the two
/// 16-lane halves lane-wise, then fold the surviving 16 lanes.
pub fn horizontal_min_u8_avx(a: &Vec<u8>) -> (r: u8)
    requires
        a@.len() == 32,
    ensures
        occurs(a@, r),
        forall|k: int| 0 <= k < a@.len() ==> r <= a@[k],
        r == fold_min_u8(a@),
{
    let lo = load_lanes_u8(a.as_slice(), 0, 16);
    let hi = load_lanes_u8(a.as_slice(), 16, 16);
    let folded = lanewise_min_u8(&lo, &hi);
    let mut m = folded[0];
    let mut k: usize = 1;
    while k < 16
        invariant
            1 <= k <= 16,
            folded@.len() == 16,
            exists|j: int| 0 <= j < k && folded@[j] == m,
            forall|j: int| 0 <= j < k ==> m <= folded@[j],
        decreases 16 - k,
    {
        if folded[k] < m {
            m = folded[k];
            assert(exists|j: int| 0 <= j < k + 1 && folded@[j] == m);
        }
        k += 1;
    }
    proof {
        let j = choose|j: int| 0 <= j < 16 && folded@[j] == m;
        assert(a@[j] == m || a@[j + 16] == m);
        assert(exists|i: int| 0 <= i < a@.len() && a@[i] == m);
        assert forall|i: int| 0 <= i < a@.len() implies m <= a@[i] by {
            if i < 16 {
                assert(m <= folded@[i]);
            } else {
                assert(m <= folded@[i - 16]);
            }
        }
        lemma_min_unique_u8(a@, m);
    }
    m
}

/// Calculates the horizontal maximum of 32 8-bit lanes.
pub fn horizontal_max_u8_avx(a: &Vec<u8>) -> (r: u8)
    requires
        a@.len() == 32,
    ensures
        occurs(a@, r),
        forall|k: int| 0 <= k < a@.len() ==> r >= a@[k],
        r == fold_max_u8(a@),
{
    let lo = load_lanes_u8(a.as_slice(), 0, 16);
    let hi = load_lanes_u8(a.as_slice(), 16, 16);
    let folded = lanewise_max_u8(&lo, &hi);
    let mut m = folded[0];
    let mut k: usize = 1;
    while k < 16
        invariant
            1 <= k <= 16,
            folded@.len() == 16,
            exists|j: int| 0 <= j < k && folded@[j] == m,
            forall|j: int| 0 <= j < k ==> m >= folded@[j],
        decreases 16 - k,
    {
        if folded[k] > m {
            m = folded[k];
            assert(exists|j: int| 0 <= j < k + 1 && folded@[j] == m);
        }
        k += 1;
    }
    proof {
        let j = choose|j: int| 0 <= j < 16 && folded@[j] == m;
        assert(a@[j] == m || a@[j + 16] == m);
        assert(exists|i: int| 0 <= i < a@.len() && a@[i] == m);
        assert forall|i: int| 0 <= i < a@.len() implies m >= a@[i] by {
            if i < 16 {
                assert(m >= folded@[i]);
            } else {
                assert(m >= folded@[i - 16]);
            }
        }
        lemma_max_unique_u8(a@, m);
    }
    m
}

} // verus!
