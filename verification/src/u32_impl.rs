//! Wide kernels for 32-bit elements.  Each walks the array in blocks of 32
//! elements — four 8-lane registers per block, the unroll the hardware
//! pipeline wants — and finishes the remainder with the scalar reference
//! kernels.  Every kernel's contract is the same sequential model the
//! scalar kernels satisfy, so the two paths can never disagree.
use vstd::prelude::*;

use crate::lanes::{
    any_lane_set_u32, cmpeq_u32, first_set_lane_u32, lane_sum_to, lane_sum_u32,
    lanewise_add_wrap_u32, lanewise_max_u32, lanewise_min_u32, lemma_add_wrap_lane_sum,
    lemma_mask_lane_sum, lemma_mod_add_cong, load_lanes_u32, splat_u32,
};
use crate::model::{
    count_in, count_of, find_result, fold_max_u32, fold_min_u32, lemma_count_in_le,
    lemma_count_in_split, lemma_fold_max_u32_is_max, lemma_fold_max_u32_mono,
    lemma_fold_min_u32_is_min, lemma_fold_min_u32_mono, lemma_max_unique_u32,
    lemma_min_unique_u32, max_result_u32, min_result_u32, occurs, occurs_in,
};
use crate::scalar::{contains_from_u32, count_from_u32, find_from_u32, max_from_u32, min_from_u32};
use crate::simd_extensions::{
    horizontal_max_u32_avx, horizontal_min_u32_avx, lane_modulus, negative_horizontal_sum_u32_avx,
};

verus! {

/// Every lane of an accumulator is either the seeding identity or an
/// element of the prefix `[0, hi)` of `s`.
pub open spec fn lanes_from_prefix_u32(acc: Seq<u32>, s: Seq<u32>, hi: int, ident: u32) -> bool {
    forall|k: int| 0 <= k < acc.len() ==> acc[k] == ident || occurs_in(s, acc[k], 0, hi)
}

/// The smaller of two values.
pub open spec fn spec_min2_u32(a: u32, b: u32) -> u32 {
    if a < b {
        a
    } else {
        b
    }
}

/// The larger of two values.
pub open spec fn spec_max2_u32(a: u32, b: u32) -> u32 {
    if a > b {
        a
    } else {
        b
    }
}

/// The smallest lane across four accumulators.
pub open spec fn lanes_floor_u32(a1: Seq<u32>, a2: Seq<u32>, a3: Seq<u32>, a4: Seq<u32>) -> u32 {
    spec_min2_u32(
        spec_min2_u32(fold_min_u32(a1), fold_min_u32(a2)),
        spec_min2_u32(fold_min_u32(a3), fold_min_u32(a4)),
    )
}

/// The largest lane across four accumulators.
pub open spec fn lanes_ceil_u32(a1: Seq<u32>, a2: Seq<u32>, a3: Seq<u32>, a4: Seq<u32>) -> u32 {
    spec_max2_u32(
        spec_max2_u32(fold_max_u32(a1), fold_max_u32(a2)),
        spec_max2_u32(fold_max_u32(a3), fold_max_u32(a4)),
    )
}

/// The smallest lane across the accumulators bounds every element of the
/// prefix `[0, hi)` from below.
pub open spec fn prefix_covered_min_u32(
    a1: Seq<u32>,
    a2: Seq<u32>,
    a3: Seq<u32>,
    a4: Seq<u32>,
    s: Seq<u32>,
    hi: int,
) -> bool {
    forall|j: int| 0 <= j < hi ==> lanes_floor_u32(a1, a2, a3, a4) <= #[trigger] s[j]
}

/// The largest lane across the accumulators bounds every element of the
/// prefix `[0, hi)` from above.
pub open spec fn prefix_covered_max_u32(
    a1: Seq<u32>,
    a2: Seq<u32>,
    a3: Seq<u32>,
    a4: Seq<u32>,
    s: Seq<u32>,
    hi: int,
) -> bool {
    forall|j: int| 0 <= j < hi ==> lanes_ceil_u32(a1, a2, a3, a4) >= #[trigger] s[j]
}

/// One 8-lane window test: load, compare against the broadcast needle, and
/// report whether any lane hit.
fn window_any_u32(array: &[u32], off: usize, needle_mask: &Vec<u32>, needle: u32) -> (r: bool)
    requires
        off + 8 <= array@.len(),
        needle_mask@.len() == 8,
        forall|k: int| 0 <= k < 8 ==> needle_mask@[k] == needle,
    ensures
        r == occurs_in(array@, needle, off as int, off + 8),
{
    let w = load_lanes_u32(array, off, 8);
    let c = cmpeq_u32(&w, needle_mask);
    let any = any_lane_set_u32(&c);
    proof {
        if any {
            let k = choose|k: int| 0 <= k < 8 && c@[k] != 0;
            assert(w@[k] == array@[off + k]);
            assert(array@[off + k] == needle);
        } else {
            assert forall|j: int| off <= j < off + 8 implies array@[j] != needle by {
                assert(c@[j - off] == 0);
                assert(w@[j - off] == array@[j]);
            }
        }
    }
    any
}

/// One 8-lane window search: load, compare, and decode the match mask into
/// the lowest hitting lane.
fn window_find_u32(array: &[u32], off: usize, needle_mask: &Vec<u32>, needle: u32) -> (r: Option<
    usize,
>)
    requires
        off + 8 <= array@.len(),
        needle_mask@.len() == 8,
        forall|k: int| 0 <= k < 8 ==> needle_mask@[k] == needle,
    ensures
        match r {
            Some(l) => l < 8 && array@[off + l] == needle && !occurs_in(
                array@,
                needle,
                off as int,
                off + l,
            ),
            None => !occurs_in(array@, needle, off as int, off + 8),
        },
{
    let w = load_lanes_u32(array, off, 8);
    let c = cmpeq_u32(&w, needle_mask);
    if any_lane_set_u32(&c) {
        let l = first_set_lane_u32(&c);
        proof {
            assert(w@[l as int] == array@[off + l]);
            assert(array@[off + l] == needle);
            assert forall|j: int| off <= j < off + l implies array@[j] != needle by {
                assert(c@[j - off] == 0);
                assert(w@[j - off] == array@[j]);
            }
        }
        Some(l)
    } else {
        proof {
            assert forall|j: int| off <= j < off + 8 implies array@[j] != needle by {
                assert(c@[j - off] == 0);
                assert(w@[j - off] == array@[j]);
            }
        }
        None
    }
}

/// Fold one 8-lane window into a min accumulator.
fn accumulate_min_window_u32(acc: &Vec<u32>, array: &[u32], off: usize) -> (r: Vec<u32>)
    requires
        acc@.len() == 8,
        off + 8 <= array@.len(),
    ensures
        r@.len() == 8,
        forall|k: int| 0 <= k < 8 ==> r@[k] <= acc@[k],
        forall|k: int| 0 <= k < 8 ==> (r@[k] == acc@[k] || r@[k] == array@[off + k]),
        forall|k: int| 0 <= k < 8 ==> r@[k] <= array@[off + k],
{
    let w = load_lanes_u32(array, off, 8);
    lanewise_min_u32(acc, &w)
}

/// Fold one 8-lane window into a max accumulator.
fn accumulate_max_window_u32(acc: &Vec<u32>, array: &[u32], off: usize) -> (r: Vec<u32>)
    requires
        acc@.len() == 8,
        off + 8 <= array@.len(),
    ensures
        r@.len() == 8,
        forall|k: int| 0 <= k < 8 ==> r@[k] >= acc@[k],
        forall|k: int| 0 <= k < 8 ==> (r@[k] == acc@[k] || r@[k] == array@[off + k]),
        forall|k: int| 0 <= k < 8 ==> r@[k] >= array@[off + k],
{
    let w = load_lanes_u32(array, off, 8);
    lanewise_max_u32(acc, &w)
}

/// One count step over an 8-lane window: the accumulator's lane sum drops
/// by one per hit, modulo the lane width.
proof fn lemma_count_window_u32(
    s: Seq<u32>,
    x: u32,
    off: int,
    w: Seq<u32>,
    cmask: Seq<u32>,
    acc: Seq<u32>,
    nacc: Seq<u32>,
)
    requires
        0 <= off,
        off + 8 <= s.len(),
        w == s.subrange(off, off + 8),
        cmask.len() == 8,
        acc.len() == 8,
        nacc.len() == 8,
        forall|k: int|
            0 <= k < 8 ==> cmask[k] == (if w[k] == x {
                0xFFFF_FFFFu32
            } else {
                0u32
            }),
        forall|k: int| 0 <= k < 8 ==> nacc[k] == (acc[k] + cmask[k]) % 0x1_0000_0000,
    ensures
        lane_sum_u32(nacc) % lane_modulus() == (lane_sum_u32(acc) + 0xFFFF_FFFFint * (count_in(
            s,
            x,
            off,
            off + 8,
        ) as int)) % lane_modulus(),
        count_in(s, x, off, off + 8) <= 8,
{
    assert forall|k: int| 0 <= k < 8 implies cmask[k] == (if s[off + k] == x {
        0xFFFF_FFFFu32
    } else {
        0u32
    }) by {
        assert(w[k] == s[off + k]);
    }
    lemma_mask_lane_sum(cmask, s, off, off + 8, x, 8);
    lemma_add_wrap_lane_sum(acc, cmask, nacc, 8);
    lemma_count_in_le(s, x, off, off + 8);
}

/// The modular bookkeeping of one count block: if the lane sums encode the
/// prefix count and the block adds `cb` hits in mask encoding, the new lane
/// sums encode the extended count.
proof fn lemma_count_step_algebra(big: int, nsum: int, c: int, cb: int)
    requires
        0 <= c,
        0 <= cb,
        c + cb < lane_modulus(),
        big % lane_modulus() == (lane_modulus() - (c % lane_modulus())) % lane_modulus(),
        nsum % lane_modulus() == (big + 0xFFFF_FFFFint * cb) % lane_modulus(),
    ensures
        nsum % lane_modulus() == (lane_modulus() - ((c + cb) % lane_modulus())) % lane_modulus(),
{
    let m = lane_modulus();
    vstd::arithmetic::div_mod::lemma_add_mod_noop_right(0xFFFF_FFFFint * cb, big, m);
    vstd::arithmetic::div_mod::lemma_add_mod_noop_right(0xFFFF_FFFFint * cb, m - (c % m), m);
    vstd::arithmetic::div_mod::lemma_small_mod(c as nat, m as nat);
    vstd::arithmetic::div_mod::lemma_small_mod((c + cb) as nat, m as nat);
    vstd::arithmetic::div_mod::lemma_mod_multiples_vanish(cb, m - c - cb, m);
    assert(m * cb + (m - c - cb) == (m - (c % m)) + 0xFFFF_FFFFint * cb);
}

/// Returns `true` if `needle` is an element in the given array.
pub fn contains_avx(array: &[u32], needle: u32) -> (r: bool)
    ensures
        r == occurs(array@, needle),
{
    let len = array.len();
    let needle_mask = splat_u32(needle, 8);
    let mut i: usize = 0;
    while len - i >= 32
        invariant
            i <= len == array@.len(),
            needle_mask@.len() == 8,
            forall|k: int| 0 <= k < 8 ==> needle_mask@[k] == needle,
            !occurs_in(array@, needle, 0, i as int),
        decreases len - i,
    {
        if window_any_u32(array, i, &needle_mask, needle) {
            return true;
        }
        if window_any_u32(array, i + 8, &needle_mask, needle) {
            return true;
        }
        if window_any_u32(array, i + 16, &needle_mask, needle) {
            return true;
        }
        if window_any_u32(array, i + 24, &needle_mask, needle) {
            return true;
        }
        i += 32;
    }
    contains_from_u32(array, needle, i)
}

/// Returns the position of `needle` in `array` if the array contains it.
/// If there are multiple occurrences of `needle` in `array`, the first
/// index gets returned: blocks are visited in ascending order and, within a
/// block, sub-registers in ascending order.
pub fn find_avx(array: &[u32], needle: u32) -> (r: Option<usize>)
    ensures
        find_result(array@, needle, r),
{
    let len = array.len();
    let needle_mask = splat_u32(needle, 8);
    let mut i: usize = 0;
    while len - i >= 32
        invariant
            i <= len == array@.len(),
            needle_mask@.len() == 8,
            forall|k: int| 0 <= k < 8 ==> needle_mask@[k] == needle,
            !occurs_in(array@, needle, 0, i as int),
        decreases len - i,
    {
        if let Some(l) = window_find_u32(array, i, &needle_mask, needle) {
            return Some(i + l);
        }
        if let Some(l) = window_find_u32(array, i + 8, &needle_mask, needle) {
            return Some(i + 8 + l);
        }
        if let Some(l) = window_find_u32(array, i + 16, &needle_mask, needle) {
            return Some(i + 16 + l);
        }
        if let Some(l) = window_find_u32(array, i + 24, &needle_mask, needle) {
            return Some(i + 24 + l);
        }
        i += 32;
    }
    find_from_u32(array, needle, i)
}

/// Returns the amount of occurrences of `needle` in `array`.
///
/// Per-lane hits are accumulated as all-ones masks, so each hit adds minus
/// one to a lane sum; the negating horizontal sum recovers the count.  The
/// length bound keeps that count below the lane modulus, where the
/// encoding is exact; the dispatch layer guarantees it.
#[verifier::rlimit(80)]
pub fn count_avx(array: &[u32], element: u32) -> (r: usize)
    requires
        array@.len() < 0x1_0000_0000,
    ensures
        r == count_of(array@, element),
{
    let len = array.len();
    let needle_mask = splat_u32(element, 8);
    let mut sum = splat_u32(0, 8);
    let mut sum2 = splat_u32(0, 8);
    let mut sum3 = splat_u32(0, 8);
    let mut sum4 = splat_u32(0, 8);
    let mut i: usize = 0;
    proof {
        reveal_with_fuel(lane_sum_to, 9);
        assert(lane_sum_u32(sum@) == 0);
        assert(lane_sum_u32(sum2@) == 0);
        assert(lane_sum_u32(sum3@) == 0);
        assert(lane_sum_u32(sum4@) == 0);
        vstd::arithmetic::div_mod::lemma_small_mod(0, lane_modulus() as nat);
        vstd::arithmetic::div_mod::lemma_mod_self_0(lane_modulus());
    }
    while len - i >= 32
        invariant
            sum@.len() == 8,
            sum2@.len() == 8,
            sum3@.len() == 8,
            sum4@.len() == 8,
            needle_mask@.len() == 8,
            forall|k: int| 0 <= k < 8 ==> needle_mask@[k] == element,
            i <= len == array@.len(),
            len < 0x1_0000_0000,
            count_in(array@, element, 0, i as int) <= i,
            (lane_sum_u32(sum@) + lane_sum_u32(sum2@) + lane_sum_u32(sum3@) + lane_sum_u32(sum4@))
                % lane_modulus() == (lane_modulus() - ((count_in(array@, element, 0, i as int)
                as int) % lane_modulus())) % lane_modulus(),
        decreases len - i,
    {
        let w0 = load_lanes_u32(array, i, 8);
        let w1 = load_lanes_u32(array, i + 8, 8);
        let w2 = load_lanes_u32(array, i + 16, 8);
        let w3 = load_lanes_u32(array, i + 24, 8);
        let c0 = cmpeq_u32(&w0, &needle_mask);
        let c1 = cmpeq_u32(&w1, &needle_mask);
        let c2 = cmpeq_u32(&w2, &needle_mask);
        let c3 = cmpeq_u32(&w3, &needle_mask);
        let ns1 = lanewise_add_wrap_u32(&sum, &c0);
        let ns2 = lanewise_add_wrap_u32(&sum2, &c1);
        let ns3 = lanewise_add_wrap_u32(&sum3, &c2);
        let ns4 = lanewise_add_wrap_u32(&sum4, &c3);
        proof {
            let m = lane_modulus();
            let s = array@;
            let ii = i as int;
            let c = count_in(s, element, 0, ii) as int;
            let cb0 = count_in(s, element, ii, ii + 8) as int;
            let cb1 = count_in(s, element, ii + 8, ii + 16) as int;
            let cb2 = count_in(s, element, ii + 16, ii + 24) as int;
            let cb3 = count_in(s, element, ii + 24, ii + 32) as int;
            lemma_count_window_u32(s, element, ii, w0@, c0@, sum@, ns1@);
            lemma_count_window_u32(s, element, ii + 8, w1@, c1@, sum2@, ns2@);
            lemma_count_window_u32(s, element, ii + 16, w2@, c2@, sum3@, ns3@);
            lemma_count_window_u32(s, element, ii + 24, w3@, c3@, sum4@, ns4@);
            let s1 = lane_sum_u32(sum@);
            let s2 = lane_sum_u32(sum2@);
            let s3 = lane_sum_u32(sum3@);
            let s4 = lane_sum_u32(sum4@);
            lemma_mod_add_cong(
                lane_sum_u32(ns1@),
                s1 + 0xFFFF_FFFFint * cb0,
                lane_sum_u32(ns2@),
                s2 + 0xFFFF_FFFFint * cb1,
                m,
            );
            lemma_mod_add_cong(
                lane_sum_u32(ns1@) + lane_sum_u32(ns2@),
                s1 + 0xFFFF_FFFFint * cb0 + s2 + 0xFFFF_FFFFint * cb1,
                lane_sum_u32(ns3@),
                s3 + 0xFFFF_FFFFint * cb2,
                m,
            );
            lemma_mod_add_cong(
                lane_sum_u32(ns1@) + lane_sum_u32(ns2@) + lane_sum_u32(ns3@),
                s1 + 0xFFFF_FFFFint * cb0 + s2 + 0xFFFF_FFFFint * cb1 + s3 + 0xFFFF_FFFFint * cb2,
                lane_sum_u32(ns4@),
                s4 + 0xFFFF_FFFFint * cb3,
                m,
            );
            let cb = cb0 + cb1 + cb2 + cb3;
            lemma_count_in_split(s, element, 0, ii, ii + 32);
            lemma_count_in_split(s, element, ii, ii + 8, ii + 32);
            lemma_count_in_split(s, element, ii + 8, ii + 16, ii + 32);
            lemma_count_in_split(s, element, ii + 16, ii + 24, ii + 32);
            lemma_count_step_algebra(
                s1 + s2 + s3 + s4,
                lane_sum_u32(ns1@) + lane_sum_u32(ns2@) + lane_sum_u32(ns3@) + lane_sum_u32(ns4@),
                c,
                cb,
            );
        }
        sum = ns1;
        sum2 = ns2;
        sum3 = ns3;
        sum4 = ns4;
        i += 32;
    }
    let t1 = lanewise_add_wrap_u32(&sum, &sum2);
    let t2 = lanewise_add_wrap_u32(&sum3, &sum4);
    let total = lanewise_add_wrap_u32(&t1, &t2);
    proof {
        let m = lane_modulus();
        lemma_add_wrap_lane_sum(sum@, sum2@, t1@, 8);
        lemma_add_wrap_lane_sum(sum3@, sum4@, t2@, 8);
        lemma_add_wrap_lane_sum(t1@, t2@, total@, 8);
        lemma_mod_add_cong(
            lane_sum_u32(t1@),
            lane_sum_u32(sum@) + lane_sum_u32(sum2@),
            lane_sum_u32(t2@),
            lane_sum_u32(sum3@) + lane_sum_u32(sum4@),
            m,
        );
    }
    let simd_res = negative_horizontal_sum_u32_avx(&total);
    proof {
        let m = lane_modulus();
        let c = count_in(array@, element, 0, i as int) as int;
        vstd::arithmetic::div_mod::lemma_small_mod(c as nat, m as nat);
        vstd::arithmetic::div_mod::lemma_mod_self_0(m);
        vstd::arithmetic::div_mod::lemma_small_mod(0, m as nat);
        if c > 0 {
            vstd::arithmetic::div_mod::lemma_small_mod((m - c) as nat, m as nat);
        }
        assert(simd_res as int == c);
        lemma_count_in_split(array@, element, 0, i as int, array@.len() as int);
        lemma_count_in_le(array@, element, i as int, array@.len() as int);
    }
    let remainder = count_from_u32(array, element, i);
    remainder + simd_res as usize
}

/// Returns the smallest item in the array, or `None` if the array was
/// empty.  Four accumulators seeded with the identity take lane-wise
/// minimums per block, are pairwise combined, horizontally reduced, and
/// folded with the scalar minimum of the remainder.
#[verifier::rlimit(80)]
pub fn min_avx(array: &[u32]) -> (r: Option<u32>)
    ensures
        min_result_u32(array@, r),
{
    if array.len() == 0 {
        return None;
    }
    let len = array.len();
    let mut lmins1 = splat_u32(u32::MAX, 8);
    let mut lmins2 = splat_u32(u32::MAX, 8);
    let mut lmins3 = splat_u32(u32::MAX, 8);
    let mut lmins4 = splat_u32(u32::MAX, 8);
    let mut i: usize = 0;
    while len - i >= 32
        invariant
            lmins1@.len() == 8,
            lmins2@.len() == 8,
            lmins3@.len() == 8,
            lmins4@.len() == 8,
            i <= len == array@.len(),
            lanes_from_prefix_u32(lmins1@, array@, i as int, u32::MAX),
            lanes_from_prefix_u32(lmins2@, array@, i as int, u32::MAX),
            lanes_from_prefix_u32(lmins3@, array@, i as int, u32::MAX),
            lanes_from_prefix_u32(lmins4@, array@, i as int, u32::MAX),
            prefix_covered_min_u32(lmins1@, lmins2@, lmins3@, lmins4@, array@, i as int),
        decreases len - i,
    {
        let n1 = accumulate_min_window_u32(&lmins1, array, i);
        let n2 = accumulate_min_window_u32(&lmins2, array, i + 8);
        let n3 = accumulate_min_window_u32(&lmins3, array, i + 16);
        let n4 = accumulate_min_window_u32(&lmins4, array, i + 24);
        proof {
            let s = array@;
            let ii = i as int;
            assert forall|k: int| 0 <= k < 8 implies (n1@[k] == u32::MAX || occurs_in(
                s,
                n1@[k],
                0,
                ii + 32,
            )) by {
                if n1@[k] == lmins1@[k] {
                    if lmins1@[k] != u32::MAX {
                        let j = choose|j: int| 0 <= j < ii && s[j] == lmins1@[k];
                        assert(0 <= j < ii + 32 && s[j] == n1@[k]);
                    }
                } else {
                    assert(s[ii + k] == n1@[k]);
                }
            }
            assert forall|k: int| 0 <= k < 8 implies (n2@[k] == u32::MAX || occurs_in(
                s,
                n2@[k],
                0,
                ii + 32,
            )) by {
                if n2@[k] == lmins2@[k] {
                    if lmins2@[k] != u32::MAX {
                        let j = choose|j: int| 0 <= j < ii && s[j] == lmins2@[k];
                        assert(0 <= j < ii + 32 && s[j] == n2@[k]);
                    }
                } else {
                    assert(s[ii + 8 + k] == n2@[k]);
                }
            }
            assert forall|k: int| 0 <= k < 8 implies (n3@[k] == u32::MAX || occurs_in(
                s,
                n3@[k],
                0,
                ii + 32,
            )) by {
                if n3@[k] == lmins3@[k] {
                    if lmins3@[k] != u32::MAX {
                        let j = choose|j: int| 0 <= j < ii && s[j] == lmins3@[k];
                        assert(0 <= j < ii + 32 && s[j] == n3@[k]);
                    }
                } else {
                    assert(s[ii + 16 + k] == n3@[k]);
                }
            }
            assert forall|k: int| 0 <= k < 8 implies (n4@[k] == u32::MAX || occurs_in(
                s,
                n4@[k],
                0,
                ii + 32,
            )) by {
                if n4@[k] == lmins4@[k] {
                    if lmins4@[k] != u32::MAX {
                        let j = choose|j: int| 0 <= j < ii && s[j] == lmins4@[k];
                        assert(0 <= j < ii + 32 && s[j] == n4@[k]);
                    }
                } else {
                    assert(s[ii + 24 + k] == n4@[k]);
                }
            }
            lemma_fold_min_u32_mono(lmins1@, n1@);
            lemma_fold_min_u32_mono(lmins2@, n2@);
            lemma_fold_min_u32_mono(lmins3@, n3@);
            lemma_fold_min_u32_mono(lmins4@, n4@);
            lemma_fold_min_u32_is_min(n1@);
            lemma_fold_min_u32_is_min(n2@);
            lemma_fold_min_u32_is_min(n3@);
            lemma_fold_min_u32_is_min(n4@);
            assert forall|j: int| 0 <= j < ii + 32 implies lanes_floor_u32(n1@, n2@, n3@, n4@)
                <= #[trigger] s[j] by {
                if j < ii {
                    assert(lanes_floor_u32(lmins1@, lmins2@, lmins3@, lmins4@) <= s[j]);
                } else if j < ii + 8 {
                    assert(fold_min_u32(n1@) <= n1@[j - ii]);
                    assert(n1@[j - ii] <= s[j]);
                } else if j < ii + 16 {
                    assert(fold_min_u32(n2@) <= n2@[j - ii - 8]);
                    assert(n2@[j - ii - 8] <= s[j]);
                } else if j < ii + 24 {
                    assert(fold_min_u32(n3@) <= n3@[j - ii - 16]);
                    assert(n3@[j - ii - 16] <= s[j]);
                } else {
                    assert(fold_min_u32(n4@) <= n4@[j - ii - 24]);
                    assert(n4@[j - ii - 24] <= s[j]);
                }
            }
        }
        lmins1 = n1;
        lmins2 = n2;
        lmins3 = n3;
        lmins4 = n4;
        i += 32;
    }
    let m1 = lanewise_min_u32(&lmins1, &lmins2);
    let m2 = lanewise_min_u32(&lmins3, &lmins4);
    let lmins = lanewise_min_u32(&m1, &m2);
    proof {
        let s = array@;
        let ii = i as int;
        assert forall|k: int| 0 <= k < 8 implies (lmins@[k] == u32::MAX || occurs_in(
            s,
            lmins@[k],
            0,
            ii,
        )) by {
            assert(lmins@[k] == lmins1@[k] || lmins@[k] == lmins2@[k] || lmins@[k] == lmins3@[k]
                || lmins@[k] == lmins4@[k]);
        }
        lemma_fold_min_u32_mono(lmins1@, lmins@);
        lemma_fold_min_u32_mono(lmins2@, lmins@);
        lemma_fold_min_u32_mono(lmins3@, lmins@);
        lemma_fold_min_u32_mono(lmins4@, lmins@);
    }
    let h = horizontal_min_u32_avx(&lmins);
    let rem = min_from_u32(array, i);
    match rem {
        Some(rm) => {
            let v = if h < rm {
                h
            } else {
                rm
            };
            proof {
                let s = array@;
                let ii = i as int;
                assert forall|j: int| 0 <= j < s.len() implies v <= s[j] by {
                    if j < ii {
                        assert(lanes_floor_u32(lmins1@, lmins2@, lmins3@, lmins4@) <= s[j]);
                    }
                }
                if h < rm {
                    let k = choose|k: int| 0 <= k < 8 && lmins@[k] == h;
                    assert(lmins@[k] != u32::MAX);
                    let j = choose|j: int| 0 <= j < ii && s[j] == h;
                    assert(occurs(s, v));
                } else {
                    let j = choose|j: int| ii <= j < s.len() && s[j] == rm;
                    assert(occurs(s, v));
                }
                lemma_min_unique_u32(s, v);
            }
            Some(v)
        },
        None => {
            proof {
                let s = array@;
                let ii = i as int;
                assert(ii == s.len());
                assert forall|j: int| 0 <= j < s.len() implies h <= s[j] by {
                    assert(lanes_floor_u32(lmins1@, lmins2@, lmins3@, lmins4@) <= s[j]);
                }
                if h == u32::MAX {
                    assert(s[0] == u32::MAX);
                    assert(occurs(s, h));
                } else {
                    let k = choose|k: int| 0 <= k < 8 && lmins@[k] == h;
                    let j = choose|j: int| 0 <= j < ii && s[j] == h;
                    assert(occurs(s, h));
                }
                lemma_min_unique_u32(s, h);
            }
            Some(h)
        },
    }
}

/// Returns the largest item in the array, or `None` if the array was
/// empty.  The max mirror of `min_avx`, seeded with zero.
#[verifier::rlimit(80)]
pub fn max_avx(array: &[u32]) -> (r: Option<u32>)
    ensures
        max_result_u32(array@, r),
{
    if array.len() == 0 {
        return None;
    }
    let len = array.len();
    let mut lmax1 = splat_u32(0, 8);
    let mut lmax2 = splat_u32(0, 8);
    let mut lmax3 = splat_u32(0, 8);
    let mut lmax4 = splat_u32(0, 8);
    let mut i: usize = 0;
    while len - i >= 32
        invariant
            lmax1@.len() == 8,
            lmax2@.len() == 8,
            lmax3@.len() == 8,
            lmax4@.len() == 8,
            i <= len == array@.len(),
            lanes_from_prefix_u32(lmax1@, array@, i as int, 0u32),
            lanes_from_prefix_u32(lmax2@, array@, i as int, 0u32),
            lanes_from_prefix_u32(lmax3@, array@, i as int, 0u32),
            lanes_from_prefix_u32(lmax4@, array@, i as int, 0u32),
            prefix_covered_max_u32(lmax1@, lmax2@, lmax3@, lmax4@, array@, i as int),
        decreases len - i,
    {
        let n1 = accumulate_max_window_u32(&lmax1, array, i);
        let n2 = accumulate_max_window_u32(&lmax2, array, i + 8);
        let n3 = accumulate_max_window_u32(&lmax3, array, i + 16);
        let n4 = accumulate_max_window_u32(&lmax4, array, i + 24);
        proof {
            let s = array@;
            let ii = i as int;
            assert forall|k: int| 0 <= k < 8 implies (n1@[k] == 0u32 || occurs_in(
                s,
                n1@[k],
                0,
                ii + 32,
            )) by {
                if n1@[k] == lmax1@[k] {
                    if lmax1@[k] != 0u32 {
                        let j = choose|j: int| 0 <= j < ii && s[j] == lmax1@[k];
                        assert(0 <= j < ii + 32 && s[j] == n1@[k]);
                    }
                } else {
                    assert(s[ii + k] == n1@[k]);
                }
            }
            assert forall|k: int| 0 <= k < 8 implies (n2@[k] == 0u32 || occurs_in(
                s,
                n2@[k],
                0,
                ii + 32,
            )) by {
                if n2@[k] == lmax2@[k] {
                    if lmax2@[k] != 0u32 {
                        let j = choose|j: int| 0 <= j < ii && s[j] == lmax2@[k];
                        assert(0 <= j < ii + 32 && s[j] == n2@[k]);
                    }
                } else {
                    assert(s[ii + 8 + k] == n2@[k]);
                }
            }
            assert forall|k: int| 0 <= k < 8 implies (n3@[k] == 0u32 || occurs_in(
                s,
                n3@[k],
                0,
                ii + 32,
            )) by {
                if n3@[k] == lmax3@[k] {
                    if lmax3@[k] != 0u32 {
                        let j = choose|j: int| 0 <= j < ii && s[j] == lmax3@[k];
                        assert(0 <= j < ii + 32 && s[j] == n3@[k]);
                    }
                } else {
                    assert(s[ii + 16 + k] == n3@[k]);
                }
            }
            assert forall|k: int| 0 <= k < 8 implies (n4@[k] == 0u32 || occurs_in(
                s,
                n4@[k],
                0,
                ii + 32,
            )) by {
                if n4@[k] == lmax4@[k] {
                    if lmax4@[k] != 0u32 {
                        let j = choose|j: int| 0 <= j < ii && s[j] == lmax4@[k];
                        assert(0 <= j < ii + 32 && s[j] == n4@[k]);
                    }
                } else {
                    assert(s[ii + 24 + k] == n4@[k]);
                }
            }
            lemma_fold_max_u32_mono(lmax1@, n1@);
            lemma_fold_max_u32_mono(lmax2@, n2@);
            lemma_fold_max_u32_mono(lmax3@, n3@);
            lemma_fold_max_u32_mono(lmax4@, n4@);
            lemma_fold_max_u32_is_max(n1@);
            lemma_fold_max_u32_is_max(n2@);
            lemma_fold_max_u32_is_max(n3@);
            lemma_fold_max_u32_is_max(n4@);
            assert forall|j: int| 0 <= j < ii + 32 implies lanes_ceil_u32(n1@, n2@, n3@, n4@)
                >= #[trigger] s[j] by {
                if j < ii {
                    assert(lanes_ceil_u32(lmax1@, lmax2@, lmax3@, lmax4@) >= s[j]);
                } else if j < ii + 8 {
                    assert(fold_max_u32(n1@) >= n1@[j - ii]);
                    assert(n1@[j - ii] >= s[j]);
                } else if j < ii + 16 {
                    assert(fold_max_u32(n2@) >= n2@[j - ii - 8]);
                    assert(n2@[j - ii - 8] >= s[j]);
                } else if j < ii + 24 {
                    assert(fold_max_u32(n3@) >= n3@[j - ii - 16]);
                    assert(n3@[j - ii - 16] >= s[j]);
                } else {
                    assert(fold_max_u32(n4@) >= n4@[j - ii - 24]);
                    assert(n4@[j - ii - 24] >= s[j]);
                }
            }
        }
        lmax1 = n1;
        lmax2 = n2;
        lmax3 = n3;
        lmax4 = n4;
        i += 32;
    }
    let m1 = lanewise_max_u32(&lmax1, &lmax2);
    let m2 = lanewise_max_u32(&lmax3, &lmax4);
    let lmax = lanewise_max_u32(&m1, &m2);
    proof {
        let s = array@;
        let ii = i as int;
        assert forall|k: int| 0 <= k < 8 implies (lmax@[k] == 0u32 || occurs_in(
            s,
            lmax@[k],
            0,
            ii,
        )) by {
            assert(lmax@[k] == lmax1@[k] || lmax@[k] == lmax2@[k] || lmax@[k] == lmax3@[k]
                || lmax@[k] == lmax4@[k]);
        }
        lemma_fold_max_u32_mono(lmax1@, lmax@);
        lemma_fold_max_u32_mono(lmax2@, lmax@);
        lemma_fold_max_u32_mono(lmax3@, lmax@);
        lemma_fold_max_u32_mono(lmax4@, lmax@);
    }
    let h = horizontal_max_u32_avx(&lmax);
    let rem = max_from_u32(array, i);
    match rem {
        Some(rm) => {
            let v = if h > rm {
                h
            } else {
                rm
            };
            proof {
                let s = array@;
                let ii = i as int;
                assert forall|j: int| 0 <= j < s.len() implies v >= s[j] by {
                    if j < ii {
                        assert(lanes_ceil_u32(lmax1@, lmax2@, lmax3@, lmax4@) >= s[j]);
                    }
                }
                if h > rm {
                    let k = choose|k: int| 0 <= k < 8 && lmax@[k] == h;
                    assert(lmax@[k] != 0u32);
                    let j = choose|j: int| 0 <= j < ii && s[j] == h;
                    assert(occurs(s, v));
                } else {
                    let j = choose|j: int| ii <= j < s.len() && s[j] == rm;
                    assert(occurs(s, v));
                }
                lemma_max_unique_u32(s, v);
            }
            Some(v)
        },
        None => {
            proof {
                let s = array@;
                let ii = i as int;
                assert(ii == s.len());
                assert forall|j: int| 0 <= j < s.len() implies h >= s[j] by {
                    assert(lanes_ceil_u32(lmax1@, lmax2@, lmax3@, lmax4@) >= s[j]);
                }
                if h == 0u32 {
                    assert(s[0] == 0u32);
                    assert(occurs(s, h));
                } else {
                    let k = choose|k: int| 0 <= k < 8 && lmax@[k] == h;
                    let j = choose|j: int| 0 <= j < ii && s[j] == h;
                    assert(occurs(s, h));
                }
                lemma_max_unique_u32(s, h);
            }
            Some(h)
        },
    }
}

} // verus!
