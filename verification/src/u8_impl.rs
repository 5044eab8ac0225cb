//! Wide kernels for 8-bit elements.  The main loop walks blocks of 128
//! bytes — four 32-lane registers per block.  Because byte blocks leave a
//! large worst-case remainder, a secondary half-width tier follows: blocks
//! of 32 bytes in two 16-lane registers, carrying the already-accumulated
//! state down with it.  The last few bytes go to the scalar reference
//! kernels.  All tiers answer to the same sequential model.
use vstd::prelude::*;

use crate::lanes::{
    any_lane_set_u8, cmpeq_u8, first_set_lane_u8, lanewise_max_u8, lanewise_min_u8, load_lanes_u8,
    splat_u8,
};
use crate::model::{
    find_result, fold_max_u8, fold_min_u8, lemma_fold_max_u8_is_max, lemma_fold_max_u8_mono,
    lemma_fold_min_u8_is_min, lemma_fold_min_u8_mono, lemma_max_unique_u8, lemma_min_unique_u8,
    max_result_u8, min_result_u8, occurs, occurs_in,
};
use crate::scalar::{contains_from_u8, find_from_u8, max_from_u8, min_from_u8};
use crate::simd_extensions::{horizontal_max_u8_avx, horizontal_min_u8_avx};

verus! {

/// Every lane of an accumulator is either the seeding identity or an
/// element of the prefix `[0, hi)` of `s`.
pub open spec fn lanes_from_prefix_u8(acc: Seq<u8>, s: Seq<u8>, hi: int, ident: u8) -> bool {
    forall|k: int| 0 <= k < acc.len() ==> acc[k] == ident || occurs_in(s, acc[k], 0, hi)
}

/// The smaller of two bytes.
pub open spec fn spec_min2_u8(a: u8, b: u8) -> u8 {
    if a < b {
        a
    } else {
        b
    }
}

/// The larger of two bytes.
pub open spec fn spec_max2_u8(a: u8, b: u8) -> u8 {
    if a > b {
        a
    } else {
        b
    }
}

/// The smallest lane across four accumulators.
pub open spec fn lanes_floor_u8(a1: Seq<u8>, a2: Seq<u8>, a3: Seq<u8>, a4: Seq<u8>) -> u8 {
    spec_min2_u8(
        spec_min2_u8(fold_min_u8(a1), fold_min_u8(a2)),
        spec_min2_u8(fold_min_u8(a3), fold_min_u8(a4)),
    )
}

/// The largest lane across four accumulators.
pub open spec fn lanes_ceil_u8(a1: Seq<u8>, a2: Seq<u8>, a3: Seq<u8>, a4: Seq<u8>) -> u8 {
    spec_max2_u8(
        spec_max2_u8(fold_max_u8(a1), fold_max_u8(a2)),
        spec_max2_u8(fold_max_u8(a3), fold_max_u8(a4)),
    )
}

/// Four-accumulator coverage: the smallest lane bounds the prefix below.
pub open spec fn prefix_covered_min_u8(
    a1: Seq<u8>,
    a2: Seq<u8>,
    a3: Seq<u8>,
    a4: Seq<u8>,
    s: Seq<u8>,
    hi: int,
) -> bool {
    forall|j: int| 0 <= j < hi ==> lanes_floor_u8(a1, a2, a3, a4) <= #[trigger] s[j]
}

/// Four-accumulator coverage: the largest lane bounds the prefix above.
pub open spec fn prefix_covered_max_u8(
    a1: Seq<u8>,
    a2: Seq<u8>,
    a3: Seq<u8>,
    a4: Seq<u8>,
    s: Seq<u8>,
    hi: int,
) -> bool {
    forall|j: int| 0 <= j < hi ==> lanes_ceil_u8(a1, a2, a3, a4) >= #[trigger] s[j]
}

/// Two-accumulator coverage for the half-width tier, minimum side.
pub open spec fn prefix_covered_min2_u8(a1: Seq<u8>, a2: Seq<u8>, s: Seq<u8>, hi: int) -> bool {
    forall|j: int| 0 <= j < hi ==> spec_min2_u8(fold_min_u8(a1), fold_min_u8(a2)) <= #[trigger] s[j]
}

/// Two-accumulator coverage for the half-width tier, maximum side.
pub open spec fn prefix_covered_max2_u8(a1: Seq<u8>, a2: Seq<u8>, s: Seq<u8>, hi: int) -> bool {
    forall|j: int| 0 <= j < hi ==> spec_max2_u8(fold_max_u8(a1), fold_max_u8(a2)) >= #[trigger] s[j]
}

/// One window test: load `mask.len()` bytes, compare against the broadcast
/// needle, and report whether any lane hit.
fn window_any_u8(array: &[u8], off: usize, needle_mask: &Vec<u8>, needle: u8) -> (r: bool)
    requires
        off + needle_mask@.len() <= array@.len(),
        forall|k: int| 0 <= k < needle_mask@.len() ==> needle_mask@[k] == needle,
    ensures
        r == occurs_in(array@, needle, off as int, off + needle_mask@.len()),
{
    let n = needle_mask.len();
    let w = load_lanes_u8(array, off, n);
    let c = cmpeq_u8(&w, needle_mask);
    let any = any_lane_set_u8(&c);
    proof {
        if any {
            let k = choose|k: int| 0 <= k < n && c@[k] != 0;
            assert(w@[k] == array@[off + k]);
            assert(array@[off + k] == needle);
        } else {
            assert forall|j: int| off <= j < off + n implies array@[j] != needle by {
                assert(c@[j - off] == 0);
                assert(w@[j - off] == array@[j]);
            }
        }
    }
    any
}

/// One window search: load, compare, and decode the match mask into the
/// lowest hitting lane.
fn window_find_u8(array: &[u8], off: usize, needle_mask: &Vec<u8>, needle: u8) -> (r: Option<usize>)
    requires
        off + needle_mask@.len() <= array@.len(),
        forall|k: int| 0 <= k < needle_mask@.len() ==> needle_mask@[k] == needle,
    ensures
        match r {
            Some(l) => l < needle_mask@.len() && array@[off + l] == needle && !occurs_in(
                array@,
                needle,
                off as int,
                off + l,
            ),
            None => !occurs_in(array@, needle, off as int, off + needle_mask@.len()),
        },
{
    let n = needle_mask.len();
    let w = load_lanes_u8(array, off, n);
    let c = cmpeq_u8(&w, needle_mask);
    if any_lane_set_u8(&c) {
        let l = first_set_lane_u8(&c);
        proof {
            assert(w@[l as int] == array@[off + l]);
            assert(array@[off + l] == needle);
            assert forall|j: int| off <= j < off + l implies array@[j] != needle by {
                assert(c@[j - off] == 0);
                assert(w@[j - off] == array@[j]);
            }
        }
        Some(l)
    } else {
        proof {
            assert forall|j: int| off <= j < off + n implies array@[j] != needle by {
                assert(c@[j - off] == 0);
                assert(w@[j - off] == array@[j]);
            }
        }
        None
    }
}

/// Fold one window into a min accumulator; the accumulator's lane count
/// sets the window width.
fn accumulate_min_window_u8(acc: &Vec<u8>, array: &[u8], off: usize) -> (r: Vec<u8>)
    requires
        off + acc@.len() <= array@.len(),
    ensures
        r@.len() == acc@.len(),
        forall|k: int| 0 <= k < acc@.len() ==> r@[k] <= acc@[k],
        forall|k: int| 0 <= k < acc@.len() ==> (r@[k] == acc@[k] || r@[k] == array@[off + k]),
        forall|k: int| 0 <= k < acc@.len() ==> r@[k] <= array@[off + k],
{
    let w = load_lanes_u8(array, off, acc.len());
    lanewise_min_u8(acc, &w)
}

/// Fold one window into a max accumulator.
fn accumulate_max_window_u8(acc: &Vec<u8>, array: &[u8], off: usize) -> (r: Vec<u8>)
    requires
        off + acc@.len() <= array@.len(),
    ensures
        r@.len() == acc@.len(),
        forall|k: int| 0 <= k < acc@.len() ==> r@[k] >= acc@[k],
        forall|k: int| 0 <= k < acc@.len() ==> (r@[k] == acc@[k] || r@[k] == array@[off + k]),
        forall|k: int| 0 <= k < acc@.len() ==> r@[k] >= array@[off + k],
{
    let w = load_lanes_u8(array, off, acc.len());
    lanewise_max_u8(acc, &w)
}

/// Returns `true` if `needle` is an element in the given array.
pub fn contains_avx(array: &[u8], needle: u8) -> (r: bool)
    ensures
        r == occurs(array@, needle),
{
    let len = array.len();
    let needle_mask = splat_u8(needle, 32);
    let mut i: usize = 0;
    while len - i >= 128
        invariant
            i <= len == array@.len(),
            needle_mask@.len() == 32,
            forall|k: int| 0 <= k < 32 ==> needle_mask@[k] == needle,
            !occurs_in(array@, needle, 0, i as int),
        decreases len - i,
    {
        let hit = window_any_u8(array, i, &needle_mask, needle) || window_any_u8(
            array,
            i + 32,
            &needle_mask,
            needle,
        ) || window_any_u8(array, i + 64, &needle_mask, needle) || window_any_u8(
            array,
            i + 96,
            &needle_mask,
            needle,
        );
        if hit {
            return true;
        }
        i += 128;
    }
    let half_mask = splat_u8(needle, 16);
    while len - i >= 32
        invariant
            i <= len == array@.len(),
            half_mask@.len() == 16,
            forall|k: int| 0 <= k < 16 ==> half_mask@[k] == needle,
            !occurs_in(array@, needle, 0, i as int),
        decreases len - i,
    {
        let hit = window_any_u8(array, i, &half_mask, needle) || window_any_u8(
            array,
            i + 16,
            &half_mask,
            needle,
        );
        if hit {
            return true;
        }
        i += 32;
    }
    contains_from_u8(array, needle, i)
}

/// Returns the position of the first occurrence of `needle` in `array`, or
/// `None`.  All three tiers visit windows in ascending address order, which
/// is what guarantees the lowest index wins.
pub fn find_avx(array: &[u8], needle: u8) -> (r: Option<usize>)
    ensures
        find_result(array@, needle, r),
{
    let len = array.len();
    let needle_mask = splat_u8(needle, 32);
    let mut i: usize = 0;
    while len - i >= 128
        invariant
            i <= len == array@.len(),
            needle_mask@.len() == 32,
            forall|k: int| 0 <= k < 32 ==> needle_mask@[k] == needle,
            !occurs_in(array@, needle, 0, i as int),
        decreases len - i,
    {
        if let Some(l) = window_find_u8(array, i, &needle_mask, needle) {
            return Some(i + l);
        }
        if let Some(l) = window_find_u8(array, i + 32, &needle_mask, needle) {
            return Some(i + 32 + l);
        }
        if let Some(l) = window_find_u8(array, i + 64, &needle_mask, needle) {
            return Some(i + 64 + l);
        }
        if let Some(l) = window_find_u8(array, i + 96, &needle_mask, needle) {
            return Some(i + 96 + l);
        }
        i += 128;
    }
    let half_mask = splat_u8(needle, 16);
    while len - i >= 32
        invariant
            i <= len == array@.len(),
            half_mask@.len() == 16,
            forall|k: int| 0 <= k < 16 ==> half_mask@[k] == needle,
            !occurs_in(array@, needle, 0, i as int),
        decreases len - i,
    {
        if let Some(l) = window_find_u8(array, i, &half_mask, needle) {
            return Some(i + l);
        }
        if let Some(l) = window_find_u8(array, i + 16, &half_mask, needle) {
            return Some(i + 16 + l);
        }
        i += 32;
    }
    find_from_u8(array, needle, i)
}


/// One full-width min block step: folding four fresh windows into the four
/// accumulators preserves both accumulator invariants, extended by one
/// block.
proof fn lemma_min_block_u8(
    s: Seq<u8>,
    ii: int,
    a1: Seq<u8>,
    a2: Seq<u8>,
    a3: Seq<u8>,
    a4: Seq<u8>,
    n1: Seq<u8>,
    n2: Seq<u8>,
    n3: Seq<u8>,
    n4: Seq<u8>,
)
    requires
        a1.len() == 32 && a2.len() == 32 && a3.len() == 32 && a4.len() == 32,
        n1.len() == 32 && n2.len() == 32 && n3.len() == 32 && n4.len() == 32,
        0 <= ii,
        ii + 128 <= s.len(),
        lanes_from_prefix_u8(a1, s, ii, u8::MAX),
        lanes_from_prefix_u8(a2, s, ii, u8::MAX),
        lanes_from_prefix_u8(a3, s, ii, u8::MAX),
        lanes_from_prefix_u8(a4, s, ii, u8::MAX),
        prefix_covered_min_u8(a1, a2, a3, a4, s, ii),
        forall|k: int| 0 <= k < 32 ==> n1[k] <= a1[k] && n1[k] <= s[ii + k],
        forall|k: int| 0 <= k < 32 ==> (n1[k] == a1[k] || n1[k] == s[ii + k]),
        forall|k: int| 0 <= k < 32 ==> n2[k] <= a2[k] && n2[k] <= s[ii + 32 + k],
        forall|k: int| 0 <= k < 32 ==> (n2[k] == a2[k] || n2[k] == s[ii + 32 + k]),
        forall|k: int| 0 <= k < 32 ==> n3[k] <= a3[k] && n3[k] <= s[ii + 64 + k],
        forall|k: int| 0 <= k < 32 ==> (n3[k] == a3[k] || n3[k] == s[ii + 64 + k]),
        forall|k: int| 0 <= k < 32 ==> n4[k] <= a4[k] && n4[k] <= s[ii + 96 + k],
        forall|k: int| 0 <= k < 32 ==> (n4[k] == a4[k] || n4[k] == s[ii + 96 + k]),
    ensures
        lanes_from_prefix_u8(n1, s, ii + 128, u8::MAX),
        lanes_from_prefix_u8(n2, s, ii + 128, u8::MAX),
        lanes_from_prefix_u8(n3, s, ii + 128, u8::MAX),
        lanes_from_prefix_u8(n4, s, ii + 128, u8::MAX),
        prefix_covered_min_u8(n1, n2, n3, n4, s, ii + 128),
{
    assert forall|k: int| 0 <= k < 32 implies (n1[k] == u8::MAX || occurs_in(s, n1[k], 0, ii + 128))
        by {
        if n1[k] == a1[k] {
            if a1[k] != u8::MAX {
                let j = choose|j: int| 0 <= j < ii && s[j] == a1[k];
                assert(0 <= j < ii + 128 && s[j] == n1[k]);
            }
        } else {
            assert(s[ii + k] == n1[k]);
        }
    }
    assert forall|k: int| 0 <= k < 32 implies (n2[k] == u8::MAX || occurs_in(s, n2[k], 0, ii + 128))
        by {
        if n2[k] == a2[k] {
            if a2[k] != u8::MAX {
                let j = choose|j: int| 0 <= j < ii && s[j] == a2[k];
                assert(0 <= j < ii + 128 && s[j] == n2[k]);
            }
        } else {
            assert(s[ii + 32 + k] == n2[k]);
        }
    }
    assert forall|k: int| 0 <= k < 32 implies (n3[k] == u8::MAX || occurs_in(s, n3[k], 0, ii + 128))
        by {
        if n3[k] == a3[k] {
            if a3[k] != u8::MAX {
                let j = choose|j: int| 0 <= j < ii && s[j] == a3[k];
                assert(0 <= j < ii + 128 && s[j] == n3[k]);
            }
        } else {
            assert(s[ii + 64 + k] == n3[k]);
        }
    }
    assert forall|k: int| 0 <= k < 32 implies (n4[k] == u8::MAX || occurs_in(s, n4[k], 0, ii + 128))
        by {
        if n4[k] == a4[k] {
            if a4[k] != u8::MAX {
                let j = choose|j: int| 0 <= j < ii && s[j] == a4[k];
                assert(0 <= j < ii + 128 && s[j] == n4[k]);
            }
        } else {
            assert(s[ii + 96 + k] == n4[k]);
        }
    }
    lemma_fold_min_u8_mono(a1, n1);
    lemma_fold_min_u8_mono(a2, n2);
    lemma_fold_min_u8_mono(a3, n3);
    lemma_fold_min_u8_mono(a4, n4);
    lemma_fold_min_u8_is_min(n1);
    lemma_fold_min_u8_is_min(n2);
    lemma_fold_min_u8_is_min(n3);
    lemma_fold_min_u8_is_min(n4);
    assert forall|j: int| 0 <= j < ii + 128 implies lanes_floor_u8(n1, n2, n3, n4) <= #[trigger] s[j]
        by {
        if j < ii {
            assert(lanes_floor_u8(a1, a2, a3, a4) <= s[j]);
        } else if j < ii + 32 {
            assert(fold_min_u8(n1) <= n1[j - ii]);
            assert(n1[j - ii] <= s[j]);
        } else if j < ii + 64 {
            assert(fold_min_u8(n2) <= n2[j - ii - 32]);
            assert(n2[j - ii - 32] <= s[j]);
        } else if j < ii + 96 {
            assert(fold_min_u8(n3) <= n3[j - ii - 64]);
            assert(n3[j - ii - 64] <= s[j]);
        } else {
            assert(fold_min_u8(n4) <= n4[j - ii - 96]);
            assert(n4[j - ii - 96] <= s[j]);
        }
    }
}

/// Returns the smallest item in the array, or `None` if the array was
/// empty.  Full-width blocks feed four 32-lane accumulators; the combined
/// accumulator is either reduced directly (no remainder) or split into two
/// 16-lane halves that keep accumulating over the half-width tier before
/// the last lanes and the scalar tail are folded in.
#[verifier::rlimit(80)]
pub fn min_avx(array: &[u8]) -> (r: Option<u8>)
    ensures
        min_result_u8(array@, r),
{
    if array.len() == 0 {
        return None;
    }
    let len = array.len();
    let mut lmins1 = splat_u8(u8::MAX, 32);
    let mut lmins2 = splat_u8(u8::MAX, 32);
    let mut lmins3 = splat_u8(u8::MAX, 32);
    let mut lmins4 = splat_u8(u8::MAX, 32);
    let mut i: usize = 0;
    while len - i >= 128
        invariant
            lmins1@.len() == 32,
            lmins2@.len() == 32,
            lmins3@.len() == 32,
            lmins4@.len() == 32,
            i <= len == array@.len(),
            lanes_from_prefix_u8(lmins1@, array@, i as int, u8::MAX),
            lanes_from_prefix_u8(lmins2@, array@, i as int, u8::MAX),
            lanes_from_prefix_u8(lmins3@, array@, i as int, u8::MAX),
            lanes_from_prefix_u8(lmins4@, array@, i as int, u8::MAX),
            prefix_covered_min_u8(lmins1@, lmins2@, lmins3@, lmins4@, array@, i as int),
        decreases len - i,
    {
        let n1 = accumulate_min_window_u8(&lmins1, array, i);
        let n2 = accumulate_min_window_u8(&lmins2, array, i + 32);
        let n3 = accumulate_min_window_u8(&lmins3, array, i + 64);
        let n4 = accumulate_min_window_u8(&lmins4, array, i + 96);
        proof {
            lemma_min_block_u8(
                array@,
                i as int,
                lmins1@,
                lmins2@,
                lmins3@,
                lmins4@,
                n1@,
                n2@,
                n3@,
                n4@,
            );
        }
        lmins1 = n1;
        lmins2 = n2;
        lmins3 = n3;
        lmins4 = n4;
        i += 128;
    }
    let c1 = lanewise_min_u8(&lmins1, &lmins2);
    let c2 = lanewise_min_u8(&lmins3, &lmins4);
    let mins = lanewise_min_u8(&c1, &c2);
    proof {
        let s = array@;
        let ii = i as int;
        assert forall|k: int| 0 <= k < 32 implies (mins@[k] == u8::MAX || occurs_in(
            s,
            mins@[k],
            0,
            ii,
        )) by {
            assert(mins@[k] == lmins1@[k] || mins@[k] == lmins2@[k] || mins@[k] == lmins3@[k]
                || mins@[k] == lmins4@[k]);
        }
        lemma_fold_min_u8_mono(lmins1@, mins@);
        lemma_fold_min_u8_mono(lmins2@, mins@);
        lemma_fold_min_u8_mono(lmins3@, mins@);
        lemma_fold_min_u8_mono(lmins4@, mins@);
    }
    if i == len {
        // The whole array was consumed by full blocks: reduce directly.
        let h = horizontal_min_u8_avx(&mins);
        proof {
            let s = array@;
            let ii = i as int;
            assert forall|j: int| 0 <= j < s.len() implies h <= s[j] by {
                assert(lanes_floor_u8(lmins1@, lmins2@, lmins3@, lmins4@) <= s[j]);
            }
            if h == u8::MAX {
                assert(s[0] == u8::MAX);
                assert(occurs(s, h));
            } else {
                let k = choose|k: int| 0 <= k < 32 && mins@[k] == h;
                let j = choose|j: int| 0 <= j < ii && s[j] == h;
                assert(occurs(s, h));
            }
            lemma_min_unique_u8(s, h);
        }
        return Some(h);
    }
    // Split the combined register into its two 16-lane halves and keep
    // accumulating at half width.
    let mut half1 = load_lanes_u8(mins.as_slice(), 0, 16);
    let mut half2 = load_lanes_u8(mins.as_slice(), 16, 16);
    proof {
        let s = array@;
        let ii = i as int;
        assert forall|k: int| 0 <= k < 16 implies (half1@[k] == u8::MAX || occurs_in(
            s,
            half1@[k],
            0,
            ii,
        )) by {
            assert(half1@[k] == mins@[k]);
        }
        assert forall|k: int| 0 <= k < 16 implies (half2@[k] == u8::MAX || occurs_in(
            s,
            half2@[k],
            0,
            ii,
        )) by {
            assert(half2@[k] == mins@[16 + k]);
        }
        lemma_fold_min_u8_is_min(mins@);
        lemma_fold_min_u8_is_min(half1@);
        lemma_fold_min_u8_is_min(half2@);
        let kw = choose|kw: int| 0 <= kw < 32 && mins@[kw] == fold_min_u8(mins@);
        if kw < 16 {
            assert(fold_min_u8(half1@) <= half1@[kw]);
        } else {
            assert(fold_min_u8(half2@) <= half2@[kw - 16]);
        }
        assert forall|j: int| 0 <= j < ii implies spec_min2_u8(
            fold_min_u8(half1@),
            fold_min_u8(half2@),
        ) <= #[trigger] s[j] by {
            assert(lanes_floor_u8(lmins1@, lmins2@, lmins3@, lmins4@) <= s[j]);
        }
    }
    while len - i >= 32
        invariant
            half1@.len() == 16,
            half2@.len() == 16,
            i <= len == array@.len(),
            lanes_from_prefix_u8(half1@, array@, i as int, u8::MAX),
            lanes_from_prefix_u8(half2@, array@, i as int, u8::MAX),
            prefix_covered_min2_u8(half1@, half2@, array@, i as int),
        decreases len - i,
    {
        let n1 = accumulate_min_window_u8(&half1, array, i);
        let n2 = accumulate_min_window_u8(&half2, array, i + 16);
        proof {
            let s = array@;
            let ii = i as int;
            assert forall|k: int| 0 <= k < 16 implies (n1@[k] == u8::MAX || occurs_in(
                s,
                n1@[k],
                0,
                ii + 32,
            )) by {
                if n1@[k] == half1@[k] {
                    if half1@[k] != u8::MAX {
                        let j = choose|j: int| 0 <= j < ii && s[j] == half1@[k];
                        assert(0 <= j < ii + 32 && s[j] == n1@[k]);
                    }
                } else {
                    assert(s[ii + k] == n1@[k]);
                }
            }
            assert forall|k: int| 0 <= k < 16 implies (n2@[k] == u8::MAX || occurs_in(
                s,
                n2@[k],
                0,
                ii + 32,
            )) by {
                if n2@[k] == half2@[k] {
                    if half2@[k] != u8::MAX {
                        let j = choose|j: int| 0 <= j < ii && s[j] == half2@[k];
                        assert(0 <= j < ii + 32 && s[j] == n2@[k]);
                    }
                } else {
                    assert(s[ii + 16 + k] == n2@[k]);
                }
            }
            lemma_fold_min_u8_mono(half1@, n1@);
            lemma_fold_min_u8_mono(half2@, n2@);
            lemma_fold_min_u8_is_min(n1@);
            lemma_fold_min_u8_is_min(n2@);
            assert forall|j: int| 0 <= j < ii + 32 implies spec_min2_u8(
                fold_min_u8(n1@),
                fold_min_u8(n2@),
            ) <= #[trigger] s[j] by {
                if j < ii {
                    assert(spec_min2_u8(fold_min_u8(half1@), fold_min_u8(half2@)) <= s[j]);
                } else if j < ii + 16 {
                    assert(fold_min_u8(n1@) <= n1@[j - ii]);
                    assert(n1@[j - ii] <= s[j]);
                } else {
                    assert(fold_min_u8(n2@) <= n2@[j - ii - 16]);
                    assert(n2@[j - ii - 16] <= s[j]);
                }
            }
        }
        half1 = n1;
        half2 = n2;
        i += 32;
    }
    // Combine the halves and fold the 16 surviving lanes to a scalar.
    let folded = lanewise_min_u8(&half1, &half2);
    let mut m = folded[0];
    let mut k: usize = 1;
    while k < 16
        invariant
            1 <= k <= 16,
            folded@.len() == 16,
            exists|j: int| 0 <= j < k && folded@[j] == m,
            forall|j: int| 0 <= j < k ==> m <= folded@[j],
        decreases 16 - k,
    {
        if folded[k] < m {
            m = folded[k];
            assert(exists|j: int| 0 <= j < k + 1 && folded@[j] == m);
        }
        k += 1;
    }
    proof {
        let s = array@;
        let ii = i as int;
        lemma_fold_min_u8_is_min(half1@);
        lemma_fold_min_u8_is_min(half2@);
        let k1 = choose|k1: int| 0 <= k1 < 16 && half1@[k1] == fold_min_u8(half1@);
        let k2 = choose|k2: int| 0 <= k2 < 16 && half2@[k2] == fold_min_u8(half2@);
        assert(m <= folded@[k1]);
        assert(m <= folded@[k2]);
        assert forall|j: int| 0 <= j < ii implies m <= #[trigger] s[j] by {
            assert(spec_min2_u8(fold_min_u8(half1@), fold_min_u8(half2@)) <= s[j]);
        }
    }
    let rem = min_from_u8(array, i);
    match rem {
        Some(rm) => {
            let v = if m < rm {
                m
            } else {
                rm
            };
            proof {
                let s = array@;
                let ii = i as int;
                if m < rm {
                    let j0 = choose|j0: int| 0 <= j0 < 16 && folded@[j0] == m;
                    assert(folded@[j0] == half1@[j0] || folded@[j0] == half2@[j0]);
                    assert(m != u8::MAX);
                    let j = choose|j: int| 0 <= j < ii && s[j] == m;
                    assert(occurs(s, v));
                } else {
                    let j = choose|j: int| ii <= j < s.len() && s[j] == rm;
                    assert(occurs(s, v));
                }
                lemma_min_unique_u8(s, v);
            }
            Some(v)
        },
        None => {
            proof {
                let s = array@;
                let ii = i as int;
                assert(ii == s.len());
                if m == u8::MAX {
                    assert(s[0] == u8::MAX);
                    assert(occurs(s, m));
                } else {
                    let j0 = choose|j0: int| 0 <= j0 < 16 && folded@[j0] == m;
                    assert(folded@[j0] == half1@[j0] || folded@[j0] == half2@[j0]);
                    let j = choose|j: int| 0 <= j < ii && s[j] == m;
                    assert(occurs(s, m));
                }
                lemma_min_unique_u8(s, m);
            }
            Some(m)
        },
    }
}


/// One full-width max block step: folding four fresh windows into the four
/// accumulators preserves both accumulator invariants, extended by one
/// block.
proof fn lemma_max_block_u8(
    s: Seq<u8>,
    ii: int,
    a1: Seq<u8>,
    a2: Seq<u8>,
    a3: Seq<u8>,
    a4: Seq<u8>,
    n1: Seq<u8>,
    n2: Seq<u8>,
    n3: Seq<u8>,
    n4: Seq<u8>,
)
    requires
        a1.len() == 32 && a2.len() == 32 && a3.len() == 32 && a4.len() == 32,
        n1.len() == 32 && n2.len() == 32 && n3.len() == 32 && n4.len() == 32,
        0 <= ii,
        ii + 128 <= s.len(),
        lanes_from_prefix_u8(a1, s, ii, 0u8),
        lanes_from_prefix_u8(a2, s, ii, 0u8),
        lanes_from_prefix_u8(a3, s, ii, 0u8),
        lanes_from_prefix_u8(a4, s, ii, 0u8),
        prefix_covered_max_u8(a1, a2, a3, a4, s, ii),
        forall|k: int| 0 <= k < 32 ==> n1[k] >= a1[k] && n1[k] >= s[ii + k],
        forall|k: int| 0 <= k < 32 ==> (n1[k] == a1[k] || n1[k] == s[ii + k]),
        forall|k: int| 0 <= k < 32 ==> n2[k] >= a2[k] && n2[k] >= s[ii + 32 + k],
        forall|k: int| 0 <= k < 32 ==> (n2[k] == a2[k] || n2[k] == s[ii + 32 + k]),
        forall|k: int| 0 <= k < 32 ==> n3[k] >= a3[k] && n3[k] >= s[ii + 64 + k],
        forall|k: int| 0 <= k < 32 ==> (n3[k] == a3[k] || n3[k] == s[ii + 64 + k]),
        forall|k: int| 0 <= k < 32 ==> n4[k] >= a4[k] && n4[k] >= s[ii + 96 + k],
        forall|k: int| 0 <= k < 32 ==> (n4[k] == a4[k] || n4[k] == s[ii + 96 + k]),
    ensures
        lanes_from_prefix_u8(n1, s, ii + 128, 0u8),
        lanes_from_prefix_u8(n2, s, ii + 128, 0u8),
        lanes_from_prefix_u8(n3, s, ii + 128, 0u8),
        lanes_from_prefix_u8(n4, s, ii + 128, 0u8),
        prefix_covered_max_u8(n1, n2, n3, n4, s, ii + 128),
{
    assert forall|k: int| 0 <= k < 32 implies (n1[k] == 0u8 || occurs_in(s, n1[k], 0, ii + 128))
        by {
        if n1[k] == a1[k] {
            if a1[k] != 0u8 {
                let j = choose|j: int| 0 <= j < ii && s[j] == a1[k];
                assert(0 <= j < ii + 128 && s[j] == n1[k]);
            }
        } else {
            assert(s[ii + k] == n1[k]);
        }
    }
    assert forall|k: int| 0 <= k < 32 implies (n2[k] == 0u8 || occurs_in(s, n2[k], 0, ii + 128))
        by {
        if n2[k] == a2[k] {
            if a2[k] != 0u8 {
                let j = choose|j: int| 0 <= j < ii && s[j] == a2[k];
                assert(0 <= j < ii + 128 && s[j] == n2[k]);
            }
        } else {
            assert(s[ii + 32 + k] == n2[k]);
        }
    }
    assert forall|k: int| 0 <= k < 32 implies (n3[k] == 0u8 || occurs_in(s, n3[k], 0, ii + 128))
        by {
        if n3[k] == a3[k] {
            if a3[k] != 0u8 {
                let j = choose|j: int| 0 <= j < ii && s[j] == a3[k];
                assert(0 <= j < ii + 128 && s[j] == n3[k]);
            }
        } else {
            assert(s[ii + 64 + k] == n3[k]);
        }
    }
    assert forall|k: int| 0 <= k < 32 implies (n4[k] == 0u8 || occurs_in(s, n4[k], 0, ii + 128))
        by {
        if n4[k] == a4[k] {
            if a4[k] != 0u8 {
                let j = choose|j: int| 0 <= j < ii && s[j] == a4[k];
                assert(0 <= j < ii + 128 && s[j] == n4[k]);
            }
        } else {
            assert(s[ii + 96 + k] == n4[k]);
        }
    }
    lemma_fold_max_u8_mono(a1, n1);
    lemma_fold_max_u8_mono(a2, n2);
    lemma_fold_max_u8_mono(a3, n3);
    lemma_fold_max_u8_mono(a4, n4);
    lemma_fold_max_u8_is_max(n1);
    lemma_fold_max_u8_is_max(n2);
    lemma_fold_max_u8_is_max(n3);
    lemma_fold_max_u8_is_max(n4);
    assert forall|j: int| 0 <= j < ii + 128 implies lanes_ceil_u8(n1, n2, n3, n4) >= #[trigger] s[j]
        by {
        if j < ii {
            assert(lanes_ceil_u8(a1, a2, a3, a4) >= s[j]);
        } else if j < ii + 32 {
            assert(fold_max_u8(n1) >= n1[j - ii]);
            assert(n1[j - ii] >= s[j]);
        } else if j < ii + 64 {
            assert(fold_max_u8(n2) >= n2[j - ii - 32]);
            assert(n2[j - ii - 32] >= s[j]);
        } else if j < ii + 96 {
            assert(fold_max_u8(n3) >= n3[j - ii - 64]);
            assert(n3[j - ii - 64] >= s[j]);
        } else {
            assert(fold_max_u8(n4) >= n4[j - ii - 96]);
            assert(n4[j - ii - 96] >= s[j]);
        }
    }
}

/// Returns the largest item in the array, or `None` if the array was
/// empty.  The max mirror of `min_avx`, seeded with zero.
#[verifier::rlimit(100)]
pub fn max_avx(array: &[u8]) -> (r: Option<u8>)
    ensures
        max_result_u8(array@, r),
{
    if array.len() == 0 {
        return None;
    }
    let len = array.len();
    let mut lmax1 = splat_u8(0, 32);
    let mut lmax2 = splat_u8(0, 32);
    let mut lmax3 = splat_u8(0, 32);
    let mut lmax4 = splat_u8(0, 32);
    let mut i: usize = 0;
    while len - i >= 128
        invariant
            lmax1@.len() == 32,
            lmax2@.len() == 32,
            lmax3@.len() == 32,
            lmax4@.len() == 32,
            i <= len == array@.len(),
            lanes_from_prefix_u8(lmax1@, array@, i as int, 0u8),
            lanes_from_prefix_u8(lmax2@, array@, i as int, 0u8),
            lanes_from_prefix_u8(lmax3@, array@, i as int, 0u8),
            lanes_from_prefix_u8(lmax4@, array@, i as int, 0u8),
            prefix_covered_max_u8(lmax1@, lmax2@, lmax3@, lmax4@, array@, i as int),
        decreases len - i,
    {
        let n1 = accumulate_max_window_u8(&lmax1, array, i);
        let n2 = accumulate_max_window_u8(&lmax2, array, i + 32);
        let n3 = accumulate_max_window_u8(&lmax3, array, i + 64);
        let n4 = accumulate_max_window_u8(&lmax4, array, i + 96);
        proof {
            lemma_max_block_u8(
                array@,
                i as int,
                lmax1@,
                lmax2@,
                lmax3@,
                lmax4@,
                n1@,
                n2@,
                n3@,
                n4@,
            );
        }
        lmax1 = n1;
        lmax2 = n2;
        lmax3 = n3;
        lmax4 = n4;
        i += 128;
    }
    let c1 = lanewise_max_u8(&lmax1, &lmax2);
    let c2 = lanewise_max_u8(&lmax3, &lmax4);
    let maxs = lanewise_max_u8(&c1, &c2);
    proof {
        let s = array@;
        let ii = i as int;
        assert forall|k: int| 0 <= k < 32 implies (maxs@[k] == 0u8 || occurs_in(
            s,
            maxs@[k],
            0,
            ii,
        )) by {
            assert(maxs@[k] == lmax1@[k] || maxs@[k] == lmax2@[k] || maxs@[k] == lmax3@[k]
                || maxs@[k] == lmax4@[k]);
        }
        lemma_fold_max_u8_mono(lmax1@, maxs@);
        lemma_fold_max_u8_mono(lmax2@, maxs@);
        lemma_fold_max_u8_mono(lmax3@, maxs@);
        lemma_fold_max_u8_mono(lmax4@, maxs@);
    }
    if i == len {
        let h = horizontal_max_u8_avx(&maxs);
        proof {
            let s = array@;
            let ii = i as int;
            assert forall|j: int| 0 <= j < s.len() implies h >= s[j] by {
                assert(lanes_ceil_u8(lmax1@, lmax2@, lmax3@, lmax4@) >= s[j]);
            }
            if h == 0u8 {
                assert(s[0] == 0u8);
                assert(occurs(s, h));
            } else {
                let k = choose|k: int| 0 <= k < 32 && maxs@[k] == h;
                let j = choose|j: int| 0 <= j < ii && s[j] == h;
                assert(occurs(s, h));
            }
            lemma_max_unique_u8(s, h);
        }
        return Some(h);
    }
    let mut half1 = load_lanes_u8(maxs.as_slice(), 0, 16);
    let mut half2 = load_lanes_u8(maxs.as_slice(), 16, 16);
    proof {
        let s = array@;
        let ii = i as int;
        assert forall|k: int| 0 <= k < 16 implies (half1@[k] == 0u8 || occurs_in(
            s,
            half1@[k],
            0,
            ii,
        )) by {
            assert(half1@[k] == maxs@[k]);
        }
        assert forall|k: int| 0 <= k < 16 implies (half2@[k] == 0u8 || occurs_in(
            s,
            half2@[k],
            0,
            ii,
        )) by {
            assert(half2@[k] == maxs@[16 + k]);
        }
        lemma_fold_max_u8_is_max(maxs@);
        lemma_fold_max_u8_is_max(half1@);
        lemma_fold_max_u8_is_max(half2@);
        let kw = choose|kw: int| 0 <= kw < 32 && maxs@[kw] == fold_max_u8(maxs@);
        if kw < 16 {
            assert(fold_max_u8(half1@) >= half1@[kw]);
        } else {
            assert(fold_max_u8(half2@) >= half2@[kw - 16]);
        }
        assert forall|j: int| 0 <= j < ii implies spec_max2_u8(
            fold_max_u8(half1@),
            fold_max_u8(half2@),
        ) >= #[trigger] s[j] by {
            assert(lanes_ceil_u8(lmax1@, lmax2@, lmax3@, lmax4@) >= s[j]);
        }
    }
    while len - i >= 32
        invariant
            half1@.len() == 16,
            half2@.len() == 16,
            i <= len == array@.len(),
            lanes_from_prefix_u8(half1@, array@, i as int, 0u8),
            lanes_from_prefix_u8(half2@, array@, i as int, 0u8),
            prefix_covered_max2_u8(half1@, half2@, array@, i as int),
        decreases len - i,
    {
        let n1 = accumulate_max_window_u8(&half1, array, i);
        let n2 = accumulate_max_window_u8(&half2, array, i + 16);
        proof {
            let s = array@;
            let ii = i as int;
            assert forall|k: int| 0 <= k < 16 implies (n1@[k] == 0u8 || occurs_in(
                s,
                n1@[k],
                0,
                ii + 32,
            )) by {
                if n1@[k] == half1@[k] {
                    if half1@[k] != 0u8 {
                        let j = choose|j: int| 0 <= j < ii && s[j] == half1@[k];
                        assert(0 <= j < ii + 32 && s[j] == n1@[k]);
                    }
                } else {
                    assert(s[ii + k] == n1@[k]);
                }
            }
            assert forall|k: int| 0 <= k < 16 implies (n2@[k] == 0u8 || occurs_in(
                s,
                n2@[k],
                0,
                ii + 32,
            )) by {
                if n2@[k] == half2@[k] {
                    if half2@[k] != 0u8 {
                        let j = choose|j: int| 0 <= j < ii && s[j] == half2@[k];
                        assert(0 <= j < ii + 32 && s[j] == n2@[k]);
                    }
                } else {
                    assert(s[ii + 16 + k] == n2@[k]);
                }
            }
            lemma_fold_max_u8_mono(half1@, n1@);
            lemma_fold_max_u8_mono(half2@, n2@);
            lemma_fold_max_u8_is_max(n1@);
            lemma_fold_max_u8_is_max(n2@);
            assert forall|j: int| 0 <= j < ii + 32 implies spec_max2_u8(
                fold_max_u8(n1@),
                fold_max_u8(n2@),
            ) >= #[trigger] s[j] by {
                if j < ii {
                    assert(spec_max2_u8(fold_max_u8(half1@), fold_max_u8(half2@)) >= s[j]);
                } else if j < ii + 16 {
                    assert(fold_max_u8(n1@) >= n1@[j - ii]);
                    assert(n1@[j - ii] >= s[j]);
                } else {
                    assert(fold_max_u8(n2@) >= n2@[j - ii - 16]);
                    assert(n2@[j - ii - 16] >= s[j]);
                }
            }
        }
        half1 = n1;
        half2 = n2;
        i += 32;
    }
    let folded = lanewise_max_u8(&half1, &half2);
    let mut m = folded[0];
    let mut k: usize = 1;
    while k < 16
        invariant
            1 <= k <= 16,
            folded@.len() == 16,
            exists|j: int| 0 <= j < k && folded@[j] == m,
            forall|j: int| 0 <= j < k ==> m >= folded@[j],
        decreases 16 - k,
    {
        if folded[k] > m {
            m = folded[k];
            assert(exists|j: int| 0 <= j < k + 1 && folded@[j] == m);
        }
        k += 1;
    }
    proof {
        let s = array@;
        let ii = i as int;
        lemma_fold_max_u8_is_max(half1@);
        lemma_fold_max_u8_is_max(half2@);
        let k1 = choose|k1: int| 0 <= k1 < 16 && half1@[k1] == fold_max_u8(half1@);
        let k2 = choose|k2: int| 0 <= k2 < 16 && half2@[k2] == fold_max_u8(half2@);
        assert(m >= folded@[k1]);
        assert(m >= folded@[k2]);
        assert forall|j: int| 0 <= j < ii implies m >= #[trigger] s[j] by {
            assert(spec_max2_u8(fold_max_u8(half1@), fold_max_u8(half2@)) >= s[j]);
        }
    }
    let rem = max_from_u8(array, i);
    match rem {
        Some(rm) => {
            let v = if m > rm {
                m
            } else {
                rm
            };
            proof {
                let s = array@;
                let ii = i as int;
                if m > rm {
                    let j0 = choose|j0: int| 0 <= j0 < 16 && folded@[j0] == m;
                    assert(folded@[j0] == half1@[j0] || folded@[j0] == half2@[j0]);
                    assert(m != 0u8);
                    let j = choose|j: int| 0 <= j < ii && s[j] == m;
                    assert(occurs(s, v));
                } else {
                    let j = choose|j: int| ii <= j < s.len() && s[j] == rm;
                    assert(occurs(s, v));
                }
                lemma_max_unique_u8(s, v);
            }
            Some(v)
        },
        None => {
            proof {
                let s = array@;
                let ii = i as int;
                assert(ii == s.len());
                if m == 0u8 {
                    assert(s[0] == 0u8);
                    assert(occurs(s, m));
                } else {
                    let j0 = choose|j0: int| 0 <= j0 < 16 && folded@[j0] == m;
                    assert(folded@[j0] == half1@[j0] || folded@[j0] == half2@[j0]);
                    let j = choose|j: int| 0 <= j < ii && s[j] == m;
                    assert(occurs(s, m));
                }
                lemma_max_unique_u8(s, m);
            }
            Some(m)
        },
    }
}

} // verus!
