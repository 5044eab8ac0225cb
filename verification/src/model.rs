//! The sequential model every kernel is held to: occurrence predicates, an
//! occurrence count, and fold-style minimum/maximum over a sequence.
use vstd::prelude::*;

verus! {

/// Some element of `s` in the index range `[lo, hi)` equals `x`.
pub open spec fn occurs_in<T>(s: Seq<T>, x: T, lo: int, hi: int) -> bool {
    exists|i: int| lo <= i < hi && s[i] == x
}

/// `x` occurs somewhere in `s`.
pub open spec fn occurs<T>(s: Seq<T>, x: T) -> bool {
    occurs_in(s, x, 0, s.len() as int)
}

/// Number of indices in `[lo, hi)` at which `s` holds `x`.
pub open spec fn count_in<T>(s: Seq<T>, x: T, lo: int, hi: int) -> nat
    decreases hi - lo,
{
    if hi <= lo {
        0
    } else {
        count_in(s, x, lo, hi - 1) + (if s[hi - 1] == x {
            1nat
        } else {
            0nat
        })
    }
}

/// Number of occurrences of `x` in `s`.
pub open spec fn count_of<T>(s: Seq<T>, x: T) -> nat {
    count_in(s, x, 0, s.len() as int)
}

/// What a search starting at `lo` must return: the lowest index `>= lo`
/// holding `x`, or `None` when no index in `[lo, len)` holds it.
pub open spec fn find_result_from<T>(s: Seq<T>, x: T, lo: int, r: Option<usize>) -> bool {
    match r {
        Some(i) => lo <= i < s.len() && s[i as int] == x && !occurs_in(s, x, lo, i as int),
        None => !occurs_in(s, x, lo, s.len() as int),
    }
}

/// What `find` must return: the lowest index holding `x`, or `None`.
pub open spec fn find_result<T>(s: Seq<T>, x: T, r: Option<usize>) -> bool {
    find_result_from(s, x, 0, r)
}

/// The sequential left fold of `min` over a non-empty sequence.
pub open spec fn fold_min_u32(s: Seq<u32>) -> u32
    recommends
        s.len() > 0,
    decreases s.len(),
{
    if s.len() <= 1 {
        s[0]
    } else {
        let m = fold_min_u32(s.drop_last());
        if s.last() < m {
            s.last()
        } else {
            m
        }
    }
}

/// The sequential left fold of `max` over a non-empty sequence.
pub open spec fn fold_max_u32(s: Seq<u32>) -> u32
    recommends
        s.len() > 0,
    decreases s.len(),
{
    if s.len() <= 1 {
        s[0]
    } else {
        let m = fold_max_u32(s.drop_last());
        if s.last() > m {
            s.last()
        } else {
            m
        }
    }
}

/// The sequential left fold of `min` over a non-empty sequence of bytes.
pub open spec fn fold_min_u8(s: Seq<u8>) -> u8
    recommends
        s.len() > 0,
    decreases s.len(),
{
    if s.len() <= 1 {
        s[0]
    } else {
        let m = fold_min_u8(s.drop_last());
        if s.last() < m {
            s.last()
        } else {
            m
        }
    }
}

/// The sequential left fold of `max` over a non-empty sequence of bytes.
pub open spec fn fold_max_u8(s: Seq<u8>) -> u8
    recommends
        s.len() > 0,
    decreases s.len(),
{
    if s.len() <= 1 {
        s[0]
    } else {
        let m = fold_max_u8(s.drop_last());
        if s.last() > m {
            s.last()
        } else {
            m
        }
    }
}

/// What `min` must return: `None` exactly on the empty array, otherwise the
/// fold result, which is an element and a lower bound of all elements.
pub open spec fn min_result_u32(s: Seq<u32>, r: Option<u32>) -> bool {
    match r {
        Some(m) => s.len() > 0 && m == fold_min_u32(s) && occurs(s, m) && (forall|i: int|
            0 <= i < s.len() ==> m <= s[i]),
        None => s.len() == 0,
    }
}

/// What `max` must return, as `min_result_u32` with the order reversed.
pub open spec fn max_result_u32(s: Seq<u32>, r: Option<u32>) -> bool {
    match r {
        Some(m) => s.len() > 0 && m == fold_max_u32(s) && occurs(s, m) && (forall|i: int|
            0 <= i < s.len() ==> m >= s[i]),
        None => s.len() == 0,
    }
}

/// What `min` must return on a byte array.
pub open spec fn min_result_u8(s: Seq<u8>, r: Option<u8>) -> bool {
    match r {
        Some(m) => s.len() > 0 && m == fold_min_u8(s) && occurs(s, m) && (forall|i: int|
            0 <= i < s.len() ==> m <= s[i]),
        None => s.len() == 0,
    }
}

/// What `max` must return on a byte array.
pub open spec fn max_result_u8(s: Seq<u8>, r: Option<u8>) -> bool {
    match r {
        Some(m) => s.len() > 0 && m == fold_max_u8(s) && occurs(s, m) && (forall|i: int|
            0 <= i < s.len() ==> m >= s[i]),
        None => s.len() == 0,
    }
}

/// The fold minimum is itself an element and a lower bound of all elements.
pub proof fn lemma_fold_min_u32_is_min(s: Seq<u32>)
    requires
        s.len() > 0,
    ensures
        occurs(s, fold_min_u32(s)),
        forall|i: int| 0 <= i < s.len() ==> fold_min_u32(s) <= s[i],
    decreases s.len(),
{
    if s.len() > 1 {
        lemma_fold_min_u32_is_min(s.drop_last());
        let m = fold_min_u32(s);
        assert forall|i: int| 0 <= i < s.len() implies m <= s[i] by {
            if i < s.len() - 1 {
                assert(s.drop_last()[i] == s[i]);
            }
        }
        if !(s.last() < fold_min_u32(s.drop_last())) {
            let j = choose|j: int|
                0 <= j < s.drop_last().len() && s.drop_last()[j] == fold_min_u32(s.drop_last());
            assert(s[j] == m);
        }
    }
}

/// The fold maximum is itself an element and an upper bound of all elements.
pub proof fn lemma_fold_max_u32_is_max(s: Seq<u32>)
    requires
        s.len() > 0,
    ensures
        occurs(s, fold_max_u32(s)),
        forall|i: int| 0 <= i < s.len() ==> fold_max_u32(s) >= s[i],
    decreases s.len(),
{
    if s.len() > 1 {
        lemma_fold_max_u32_is_max(s.drop_last());
        let m = fold_max_u32(s);
        assert forall|i: int| 0 <= i < s.len() implies m >= s[i] by {
            if i < s.len() - 1 {
                assert(s.drop_last()[i] == s[i]);
            }
        }
        if !(s.last() > fold_max_u32(s.drop_last())) {
            let j = choose|j: int|
                0 <= j < s.drop_last().len() && s.drop_last()[j] == fold_max_u32(s.drop_last());
            assert(s[j] == m);
        }
    }
}

/// The fold minimum of a non-empty byte sequence, as an element and bound.
pub proof fn lemma_fold_min_u8_is_min(s: Seq<u8>)
    requires
        s.len() > 0,
    ensures
        occurs(s, fold_min_u8(s)),
        forall|i: int| 0 <= i < s.len() ==> fold_min_u8(s) <= s[i],
    decreases s.len(),
{
    if s.len() > 1 {
        lemma_fold_min_u8_is_min(s.drop_last());
        let m = fold_min_u8(s);
        assert forall|i: int| 0 <= i < s.len() implies m <= s[i] by {
            if i < s.len() - 1 {
                assert(s.drop_last()[i] == s[i]);
            }
        }
        if !(s.last() < fold_min_u8(s.drop_last())) {
            let j = choose|j: int|
                0 <= j < s.drop_last().len() && s.drop_last()[j] == fold_min_u8(s.drop_last());
            assert(s[j] == m);
        }
    }
}

/// The fold maximum of a non-empty byte sequence, as an element and bound.
pub proof fn lemma_fold_max_u8_is_max(s: Seq<u8>)
    requires
        s.len() > 0,
    ensures
        occurs(s, fold_max_u8(s)),
        forall|i: int| 0 <= i < s.len() ==> fold_max_u8(s) >= s[i],
    decreases s.len(),
{
    if s.len() > 1 {
        lemma_fold_max_u8_is_max(s.drop_last());
        let m = fold_max_u8(s);
        assert forall|i: int| 0 <= i < s.len() implies m >= s[i] by {
            if i < s.len() - 1 {
                assert(s.drop_last()[i] == s[i]);
            }
        }
        if !(s.last() > fold_max_u8(s.drop_last())) {
            let j = choose|j: int|
                0 <= j < s.drop_last().len() && s.drop_last()[j] == fold_max_u8(s.drop_last());
            assert(s[j] == m);
        }
    }
}

/// Any element that is a lower bound of all elements equals the fold minimum.
pub proof fn lemma_min_unique_u32(s: Seq<u32>, m: u32)
    requires
        s.len() > 0,
        occurs(s, m),
        forall|i: int| 0 <= i < s.len() ==> m <= s[i],
    ensures
        m == fold_min_u32(s),
{
    lemma_fold_min_u32_is_min(s);
    let f = fold_min_u32(s);
    let j = choose|j: int| 0 <= j < s.len() && s[j] == f;
    let k = choose|k: int| 0 <= k < s.len() && s[k] == m;
    assert(m <= s[j]);
    assert(f <= s[k]);
}

/// Any element that is an upper bound of all elements equals the fold maximum.
pub proof fn lemma_max_unique_u32(s: Seq<u32>, m: u32)
    requires
        s.len() > 0,
        occurs(s, m),
        forall|i: int| 0 <= i < s.len() ==> m >= s[i],
    ensures
        m == fold_max_u32(s),
{
    lemma_fold_max_u32_is_max(s);
    let f = fold_max_u32(s);
    let j = choose|j: int| 0 <= j < s.len() && s[j] == f;
    let k = choose|k: int| 0 <= k < s.len() && s[k] == m;
    assert(m >= s[j]);
    assert(f >= s[k]);
}

/// Any byte that is a lower bound of all elements equals the fold minimum.
pub proof fn lemma_min_unique_u8(s: Seq<u8>, m: u8)
    requires
        s.len() > 0,
        occurs(s, m),
        forall|i: int| 0 <= i < s.len() ==> m <= s[i],
    ensures
        m == fold_min_u8(s),
{
    lemma_fold_min_u8_is_min(s);
    let f = fold_min_u8(s);
    let j = choose|j: int| 0 <= j < s.len() && s[j] == f;
    let k = choose|k: int| 0 <= k < s.len() && s[k] == m;
    assert(m <= s[j]);
    assert(f <= s[k]);
}

/// Any byte that is an upper bound of all elements equals the fold maximum.
pub proof fn lemma_max_unique_u8(s: Seq<u8>, m: u8)
    requires
        s.len() > 0,
        occurs(s, m),
        forall|i: int| 0 <= i < s.len() ==> m >= s[i],
    ensures
        m == fold_max_u8(s),
{
    lemma_fold_max_u8_is_max(s);
    let f = fold_max_u8(s);
    let j = choose|j: int| 0 <= j < s.len() && s[j] == f;
    let k = choose|k: int| 0 <= k < s.len() && s[k] == m;
    assert(m >= s[j]);
    assert(f >= s[k]);
}

/// Lowering every entry pointwise can only lower the fold minimum.
pub proof fn lemma_fold_min_u32_mono(a: Seq<u32>, b: Seq<u32>)
    requires
        a.len() == b.len(),
        a.len() > 0,
        forall|k: int| 0 <= k < a.len() ==> b[k] <= a[k],
    ensures
        fold_min_u32(b) <= fold_min_u32(a),
{
    lemma_fold_min_u32_is_min(a);
    lemma_fold_min_u32_is_min(b);
    let k = choose|k: int| 0 <= k < a.len() && a[k] == fold_min_u32(a);
    assert(fold_min_u32(b) <= b[k]);
}

/// Raising every entry pointwise can only raise the fold maximum.
pub proof fn lemma_fold_max_u32_mono(a: Seq<u32>, b: Seq<u32>)
    requires
        a.len() == b.len(),
        a.len() > 0,
        forall|k: int| 0 <= k < a.len() ==> b[k] >= a[k],
    ensures
        fold_max_u32(b) >= fold_max_u32(a),
{
    lemma_fold_max_u32_is_max(a);
    lemma_fold_max_u32_is_max(b);
    let k = choose|k: int| 0 <= k < a.len() && a[k] == fold_max_u32(a);
    assert(fold_max_u32(b) >= b[k]);
}

/// Lowering every byte pointwise can only lower the fold minimum.
pub proof fn lemma_fold_min_u8_mono(a: Seq<u8>, b: Seq<u8>)
    requires
        a.len() == b.len(),
        a.len() > 0,
        forall|k: int| 0 <= k < a.len() ==> b[k] <= a[k],
    ensures
        fold_min_u8(b) <= fold_min_u8(a),
{
    lemma_fold_min_u8_is_min(a);
    lemma_fold_min_u8_is_min(b);
    let k = choose|k: int| 0 <= k < a.len() && a[k] == fold_min_u8(a);
    assert(fold_min_u8(b) <= b[k]);
}

/// Raising every byte pointwise can only raise the fold maximum.
pub proof fn lemma_fold_max_u8_mono(a: Seq<u8>, b: Seq<u8>)
    requires
        a.len() == b.len(),
        a.len() > 0,
        forall|k: int| 0 <= k < a.len() ==> b[k] >= a[k],
    ensures
        fold_max_u8(b) >= fold_max_u8(a),
{
    lemma_fold_max_u8_is_max(a);
    lemma_fold_max_u8_is_max(b);
    let k = choose|k: int| 0 <= k < a.len() && a[k] == fold_max_u8(a);
    assert(fold_max_u8(b) >= b[k]);
}

/// A count over `[lo, hi)` is at most the width of the range.
pub proof fn lemma_count_in_le<T>(s: Seq<T>, x: T, lo: int, hi: int)
    requires
        lo <= hi,
    ensures
        count_in(s, x, lo, hi) <= hi - lo,
    decreases hi - lo,
{
    if lo < hi {
        lemma_count_in_le(s, x, lo, hi - 1);
    }
}

/// Splitting a count at a midpoint: occurrences in `[lo, hi)` are the
/// occurrences in `[lo, mid)` plus those in `[mid, hi)`.
pub proof fn lemma_count_in_split<T>(s: Seq<T>, x: T, lo: int, mid: int, hi: int)
    requires
        lo <= mid <= hi,
    ensures
        count_in(s, x, lo, hi) == count_in(s, x, lo, mid) + count_in(s, x, mid, hi),
    decreases hi - mid,
{
    if mid < hi {
        lemma_count_in_split(s, x, lo, mid, hi - 1);
    }
}

} // verus!
