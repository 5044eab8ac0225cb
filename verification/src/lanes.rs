//! The register model: a wide register is a vector of lanes, and every
//! register operation of the wide kernels — load, broadcast, lane-wise
//! compare, any-lane-set test, match-mask decoding, lane-wise min/max and
//! wrapping add — is a small verified function over it.  Lane counts are not
//! fixed here; the kernels pick 8, 16 or 32 lanes per width.
//!
//! An equality mask is represented the way the hardware represents it: an
//! all-ones lane where the compare hit, an all-zero lane where it missed.
use vstd::prelude::*;

use crate::model::count_in;

verus! {

/// Sum of the lanes `[0, k)` of a register, as an unbounded integer.
pub open spec fn lane_sum_to(s: Seq<u32>, k: int) -> int
    decreases k,
{
    if k <= 0 {
        0
    } else {
        lane_sum_to(s, k - 1) + s[k - 1]
    }
}

/// Sum of all lanes of a register, as an unbounded integer.
pub open spec fn lane_sum_u32(s: Seq<u32>) -> int {
    lane_sum_to(s, s.len() as int)
}

/// Load `n` consecutive elements starting at `off` into a fresh register.
pub fn load_lanes_u32(array: &[u32], off: usize, n: usize) -> (r: Vec<u32>)
    requires
        off + n <= array@.len(),
    ensures
        r@ == array@.subrange(off as int, off + n),
{
    let len = array.len();
    let mut r: Vec<u32> = Vec::new();
    let mut k: usize = 0;
    while k < n
        invariant
            k <= n,
            off + n <= len == array@.len(),
            r@ == array@.subrange(off as int, off + k),
        decreases n - k,
    {
        r.push(array[off + k]);
        proof {
            assert(r@ =~= array@.subrange(off as int, off + k + 1));
        }
        k += 1;
    }
    r
}

/// Load `n` consecutive bytes starting at `off` into a fresh register.
pub fn load_lanes_u8(array: &[u8], off: usize, n: usize) -> (r: Vec<u8>)
    requires
        off + n <= array@.len(),
    ensures
        r@ == array@.subrange(off as int, off + n),
{
    let len = array.len();
    let mut r: Vec<u8> = Vec::new();
    let mut k: usize = 0;
    while k < n
        invariant
            k <= n,
            off + n <= len == array@.len(),
            r@ == array@.subrange(off as int, off + k),
        decreases n - k,
    {
        r.push(array[off + k]);
        proof {
            assert(r@ =~= array@.subrange(off as int, off + k + 1));
        }
        k += 1;
    }
    r
}

/// Broadcast one value into every lane of an `n`-lane register.
pub fn splat_u32(x: u32, n: usize) -> (r: Vec<u32>)
    ensures
        r@.len() == n,
        forall|k: int| 0 <= k < n ==> r@[k] == x,
{
    let mut r: Vec<u32> = Vec::new();
    let mut k: usize = 0;
    while k < n
        invariant
            k <= n,
            r@.len() == k,
            forall|j: int| 0 <= j < k ==> r@[j] == x,
        decreases n - k,
    {
        r.push(x);
        k += 1;
    }
    r
}

/// Broadcast one byte into every lane of an `n`-lane register.
pub fn splat_u8(x: u8, n: usize) -> (r: Vec<u8>)
    ensures
        r@.len() == n,
        forall|k: int| 0 <= k < n ==> r@[k] == x,
{
    let mut r: Vec<u8> = Vec::new();
    let mut k: usize = 0;
    while k < n
        invariant
            k <= n,
            r@.len() == k,
            forall|j: int| 0 <= j < k ==> r@[j] == x,
        decreases n - k,
    {
        r.push(x);
        k += 1;
    }
    r
}

/// Lane-wise equality compare: an all-ones lane where the operands agree,
/// an all-zero lane where they differ.
pub fn cmpeq_u32(a: &Vec<u32>, b: &Vec<u32>) -> (r: Vec<u32>)
    requires
        a@.len() == b@.len(),
    ensures
        r@.len() == a@.len(),
        forall|k: int|
            0 <= k < a@.len() ==> r@[k] == (if a@[k] == b@[k] {
                0xFFFF_FFFFu32
            } else {
                0u32
            }),
{
    let mut r: Vec<u32> = Vec::new();
    let mut k: usize = 0;
    while k < a.len()
        invariant
            k <= a@.len(),
            r@.len() == k,
            forall|j: int|
                0 <= j < k ==> r@[j] == (if a@[j] == b@[j] {
                    0xFFFF_FFFFu32
                } else {
                    0u32
                }),
        decreases a@.len() - k,
    {
        if a[k] == b[k] {
            r.push(0xFFFF_FFFFu32);
        } else {
            r.push(0u32);
        }
        k += 1;
    }
    r
}

/// Lane-wise equality compare on byte registers.
pub fn cmpeq_u8(a: &Vec<u8>, b: &Vec<u8>) -> (r: Vec<u8>)
    requires
        a@.len() == b@.len(),
    ensures
        r@.len() == a@.len(),
        forall|k: int|
            0 <= k < a@.len() ==> r@[k] == (if a@[k] == b@[k] {
                0xFFu8
            } else {
                0u8
            }),
{
    let mut r: Vec<u8> = Vec::new();
    let mut k: usize = 0;
    while k < a.len()
        invariant
            k <= a@.len(),
            r@.len() == k,
            forall|j: int|
                0 <= j < k ==> r@[j] == (if a@[j] == b@[j] {
                    0xFFu8
                } else {
                    0u8
                }),
        decreases a@.len() - k,
    {
        if a[k] == b[k] {
            r.push(0xFFu8);
        } else {
            r.push(0u8);
        }
        k += 1;
    }
    r
}

/// The any-lane-set test: true exactly when some lane of the mask is nonzero.
pub fn any_lane_set_u32(mask: &Vec<u32>) -> (r: bool)
    ensures
        r == exists|k: int| 0 <= k < mask@.len() && mask@[k] != 0,
{
    let mut k: usize = 0;
    while k < mask.len()
        invariant
            k <= mask@.len(),
            forall|j: int| 0 <= j < k ==> mask@[j] == 0,
        decreases mask@.len() - k,
    {
        if mask[k] != 0 {
            return true;
        }
        k += 1;
    }
    false
}

/// The any-lane-set test on a byte mask.
pub fn any_lane_set_u8(mask: &Vec<u8>) -> (r: bool)
    ensures
        r == exists|k: int| 0 <= k < mask@.len() && mask@[k] != 0,
{
    let mut k: usize = 0;
    while k < mask.len()
        invariant
            k <= mask@.len(),
            forall|j: int| 0 <= j < k ==> mask@[j] == 0,
        decreases mask@.len() - k,
    {
        if mask[k] != 0 {
            return true;
        }
        k += 1;
    }
    false
}

/// Decode a match mask: the index of the lowest set lane.  This is the
/// trailing-zero count of the movemask, divided by the lane width.
pub fn first_set_lane_u32(mask: &Vec<u32>) -> (r: usize)
    requires
        exists|k: int| 0 <= k < mask@.len() && mask@[k] != 0,
    ensures
        r < mask@.len(),
        mask@[r as int] != 0,
        forall|j: int| 0 <= j < r ==> mask@[j] == 0,
{
    let mut k: usize = 0;
    while k < mask.len()
        invariant
            k <= mask@.len(),
            forall|j: int| 0 <= j < k ==> mask@[j] == 0,
        decreases mask@.len() - k,
    {
        if mask[k] != 0 {
            return k;
        }
        k += 1;
    }
    unreached()
}

/// Decode a byte match mask: the index of the lowest set lane.
pub fn first_set_lane_u8(mask: &Vec<u8>) -> (r: usize)
    requires
        exists|k: int| 0 <= k < mask@.len() && mask@[k] != 0,
    ensures
        r < mask@.len(),
        mask@[r as int] != 0,
        forall|j: int| 0 <= j < r ==> mask@[j] == 0,
{
    let mut k: usize = 0;
    while k < mask.len()
        invariant
            k <= mask@.len(),
            forall|j: int| 0 <= j < k ==> mask@[j] == 0,
        decreases mask@.len() - k,
    {
        if mask[k] != 0 {
            return k;
        }
        k += 1;
    }
    unreached()
}

/// Lane-wise minimum of two registers.
pub fn lanewise_min_u32(a: &Vec<u32>, b: &Vec<u32>) -> (r: Vec<u32>)
    requires
        a@.len() == b@.len(),
    ensures
        r@.len() == a@.len(),
        forall|k: int|
            0 <= k < a@.len() ==> r@[k] == (if a@[k] < b@[k] {
                a@[k]
            } else {
                b@[k]
            }),
{
    let mut r: Vec<u32> = Vec::new();
    let mut k: usize = 0;
    while k < a.len()
        invariant
            k <= a@.len(),
            r@.len() == k,
            forall|j: int|
                0 <= j < k ==> r@[j] == (if a@[j] < b@[j] {
                    a@[j]
                } else {
                    b@[j]
                }),
        decreases a@.len() - k,
    {
        if a[k] < b[k] {
            r.push(a[k]);
        } else {
            r.push(b[k]);
        }
        k += 1;
    }
    r
}

/// Lane-wise maximum of two registers.
pub fn lanewise_max_u32(a: &Vec<u32>, b: &Vec<u32>) -> (r: Vec<u32>)
    requires
        a@.len() == b@.len(),
    ensures
        r@.len() == a@.len(),
        forall|k: int|
            0 <= k < a@.len() ==> r@[k] == (if a@[k] > b@[k] {
                a@[k]
            } else {
                b@[k]
            }),
{
    let mut r: Vec<u32> = Vec::new();
    let mut k: usize = 0;
    while k < a.len()
        invariant
            k <= a@.len(),
            r@.len() == k,
            forall|j: int|
                0 <= j < k ==> r@[j] == (if a@[j] > b@[j] {
                    a@[j]
                } else {
                    b@[j]
                }),
        decreases a@.len() - k,
    {
        if a[k] > b[k] {
            r.push(a[k]);
        } else {
            r.push(b[k]);
        }
        k += 1;
    }
    r
}

/// Lane-wise minimum of two byte registers.
pub fn lanewise_min_u8(a: &Vec<u8>, b: &Vec<u8>) -> (r: Vec<u8>)
    requires
        a@.len() == b@.len(),
    ensures
        r@.len() == a@.len(),
        forall|k: int|
            0 <= k < a@.len() ==> r@[k] == (if a@[k] < b@[k] {
                a@[k]
            } else {
                b@[k]
            }),
{
    let mut r: Vec<u8> = Vec::new();
    let mut k: usize = 0;
    while k < a.len()
        invariant
            k <= a@.len(),
            r@.len() == k,
            forall|j: int|
                0 <= j < k ==> r@[j] == (if a@[j] < b@[j] {
                    a@[j]
                } else {
                    b@[j]
                }),
        decreases a@.len() - k,
    {
        if a[k] < b[k] {
            r.push(a[k]);
        } else {
            r.push(b[k]);
        }
        k += 1;
    }
    r
}

/// Lane-wise maximum of two byte registers.
pub fn lanewise_max_u8(a: &Vec<u8>, b: &Vec<u8>) -> (r: Vec<u8>)
    requires
        a@.len() == b@.len(),
    ensures
        r@.len() == a@.len(),
        forall|k: int|
            0 <= k < a@.len() ==> r@[k] == (if a@[k] > b@[k] {
                a@[k]
            } else {
                b@[k]
            }),
{
    let mut r: Vec<u8> = Vec::new();
    let mut k: usize = 0;
    while k < a.len()
        invariant
            k <= a@.len(),
            r@.len() == k,
            forall|j: int|
                0 <= j < k ==> r@[j] == (if a@[j] > b@[j] {
                    a@[j]
                } else {
                    b@[j]
                }),
        decreases a@.len() - k,
    {
        if a[k] > b[k] {
            r.push(a[k]);
        } else {
            r.push(b[k]);
        }
        k += 1;
    }
    r
}

/// Lane-wise addition modulo the lane width, as the hardware adds.
pub fn lanewise_add_wrap_u32(a: &Vec<u32>, b: &Vec<u32>) -> (r: Vec<u32>)
    requires
        a@.len() == b@.len(),
    ensures
        r@.len() == a@.len(),
        forall|k: int| 0 <= k < a@.len() ==> r@[k] == (a@[k] + b@[k]) % 0x1_0000_0000,
{
    let mut r: Vec<u32> = Vec::new();
    let mut k: usize = 0;
    while k < a.len()
        invariant
            k <= a@.len(),
            r@.len() == k,
            forall|j: int| 0 <= j < k ==> r@[j] == (a@[j] + b@[j]) % 0x1_0000_0000,
        decreases a@.len() - k,
    {
        let s: u64 = a[k] as u64 + b[k] as u64;
        let lane: u32 = (s % 0x1_0000_0000u64) as u32;
        r.push(lane);
        k += 1;
    }
    r
}

/// Addition respects congruence modulo `m`.
pub proof fn lemma_mod_add_cong(x1: int, y1: int, x2: int, y2: int, m: int)
    requires
        0 < m,
        x1 % m == y1 % m,
        x2 % m == y2 % m,
    ensures
        (x1 + x2) % m == (y1 + y2) % m,
{
    vstd::arithmetic::div_mod::lemma_add_mod_noop(x1, x2, m);
    vstd::arithmetic::div_mod::lemma_add_mod_noop(y1, y2, m);
}

/// A mask built by a lane-wise equality compare of a window against a
/// broadcast needle sums to `0xFFFF_FFFF` times the number of matches in
/// the window.
pub proof fn lemma_mask_lane_sum(mask: Seq<u32>, window: Seq<u32>, lo: int, hi: int, x: u32, k: int)
    requires
        0 <= lo <= hi,
        mask.len() == hi - lo,
        window.len() >= hi,
        0 <= k <= mask.len(),
        forall|j: int|
            0 <= j < mask.len() ==> mask[j] == (if window[lo + j] == x {
                0xFFFF_FFFFu32
            } else {
                0u32
            }),
    ensures
        lane_sum_to(mask, k) == 0xFFFF_FFFFint * count_in(window, x, lo, lo + k),
    decreases k,
{
    if k > 0 {
        lemma_mask_lane_sum(mask, window, lo, hi, x, k - 1);
    }
}

/// Lane-wise wrapping addition adds the lane sums, modulo the lane width.
pub proof fn lemma_add_wrap_lane_sum(a: Seq<u32>, b: Seq<u32>, c: Seq<u32>, k: int)
    requires
        a.len() == b.len() == c.len(),
        0 <= k <= a.len(),
        forall|j: int| 0 <= j < a.len() ==> c[j] == (a[j] + b[j]) % 0x1_0000_0000,
    ensures
        lane_sum_to(c, k) % 0x1_0000_0000 == (lane_sum_to(a, k) + lane_sum_to(b, k))
            % 0x1_0000_0000,
    decreases k,
{
    if k > 0 {
        lemma_add_wrap_lane_sum(a, b, c, k - 1);
        let m = 0x1_0000_0000int;
        let sa = lane_sum_to(a, k - 1);
        let sb = lane_sum_to(b, k - 1);
        let sc = lane_sum_to(c, k - 1);
        let ap = a[k - 1] as int;
        let bp = b[k - 1] as int;
        vstd::arithmetic::div_mod::lemma_add_mod_noop_right(sc, ap + bp, m);
        vstd::arithmetic::div_mod::lemma_add_mod_noop_right(ap + bp, sc, m);
        vstd::arithmetic::div_mod::lemma_add_mod_noop_right(ap + bp, sa + sb, m);
        assert(lane_sum_to(c, k) == sc + ((ap + bp) % m));
        assert(lane_sum_to(a, k) == sa + ap);
        assert(lane_sum_to(b, k) == sb + bp);
    }
}

} // verus!
