//! Cross-kernel laws.  Every kernel — wide or scalar — carries a contract
//! over the same sequential model, and these lemmas pin the model down:
//! each operation's contract admits exactly one answer, so the two paths
//! can never disagree; `contains` agrees with `find`; `find` never skips
//! an occurrence; and the count is exactly the number of matching indices.
use vstd::prelude::*;

use crate::model::{
    count_in, count_of, find_result, max_result_u32, max_result_u8, min_result_u32, min_result_u8,
    occurs, occurs_in,
};

verus! {

/// Any two results meeting the find contract are equal.  The wide and the
/// scalar search therefore return the same index on every array.
pub proof fn lemma_find_result_unique<T>(s: Seq<T>, x: T, r1: Option<usize>, r2: Option<usize>)
    requires
        find_result(s, x, r1),
        find_result(s, x, r2),
    ensures
        r1 == r2,
{
    match (r1, r2) {
        (Some(i1), Some(i2)) => {
            if i1 < i2 {
                assert(occurs_in(s, x, 0, i2 as int));
            }
            if i2 < i1 {
                assert(occurs_in(s, x, 0, i1 as int));
            }
        },
        (Some(i1), None) => {
            assert(occurs(s, x));
        },
        (None, Some(i2)) => {
            assert(occurs(s, x));
        },
        (None, None) => {},
    }
}

/// Any two results meeting the min contract are equal: the contract pins
/// the value to the sequential fold.
pub proof fn lemma_min_result_unique_u32(s: Seq<u32>, r1: Option<u32>, r2: Option<u32>)
    requires
        min_result_u32(s, r1),
        min_result_u32(s, r2),
    ensures
        r1 == r2,
{
}

/// Any two results meeting the max contract are equal.
pub proof fn lemma_max_result_unique_u32(s: Seq<u32>, r1: Option<u32>, r2: Option<u32>)
    requires
        max_result_u32(s, r1),
        max_result_u32(s, r2),
    ensures
        r1 == r2,
{
}

/// Any two results meeting the byte min contract are equal.
pub proof fn lemma_min_result_unique_u8(s: Seq<u8>, r1: Option<u8>, r2: Option<u8>)
    requires
        min_result_u8(s, r1),
        min_result_u8(s, r2),
    ensures
        r1 == r2,
{
}

/// Any two results meeting the byte max contract are equal.
pub proof fn lemma_max_result_unique_u8(s: Seq<u8>, r1: Option<u8>, r2: Option<u8>)
    requires
        max_result_u8(s, r1),
        max_result_u8(s, r2),
    ensures
        r1 == r2,
{
}

/// Any two results meeting the count contract are equal.  The count
/// contract is an equality with the model count, so the wide and the
/// scalar count always agree.
pub proof fn lemma_count_result_unique<T>(s: Seq<T>, x: T, r1: usize, r2: usize)
    requires
        r1 == count_of(s, x),
        r2 == count_of(s, x),
    ensures
        r1 == r2,
{
}

/// Any two results meeting the membership contract are equal.
pub proof fn lemma_contains_result_unique<T>(s: Seq<T>, x: T, r1: bool, r2: bool)
    requires
        r1 == occurs(s, x),
        r2 == occurs(s, x),
    ensures
        r1 == r2,
{
}

/// A membership answer and a find answer over the same array agree:
/// `contains` is true exactly when `find` returns an index.
pub proof fn lemma_find_contains_consistent<T>(s: Seq<T>, x: T, f: Option<usize>, c: bool)
    requires
        find_result(s, x, f),
        c == occurs(s, x),
    ensures
        c == f.is_some(),
{
    match f {
        Some(i) => {
            assert(occurs(s, x));
        },
        None => {},
    }
}

/// The lowest-index guarantee: if the needle sits at index `i`, a find
/// result is some index no later than `i`.  With the needle at two indices
/// `i < j`, the result is therefore at most `i`, never `j`.
pub proof fn lemma_find_lowest<T>(s: Seq<T>, x: T, r: Option<usize>, i: int)
    requires
        find_result(s, x, r),
        0 <= i < s.len(),
        s[i] == x,
    ensures
        match r {
            Some(k) => k <= i,
            None => false,
        },
{
    assert(occurs(s, x));
    match r {
        Some(k) => {
            if i < k {
                assert(occurs_in(s, x, 0, k as int));
            }
        },
        None => {},
    }
}

/// The occurrence count over `[lo, hi)` is the cardinality of the set of
/// matching indices in that range.
proof fn lemma_count_in_is_card<T>(s: Seq<T>, x: T, lo: int, hi: int)
    requires
        0 <= lo <= hi <= s.len(),
    ensures
        Set::new(|i: int| lo <= i < hi && s[i] == x).finite(),
        count_in(s, x, lo, hi) == Set::new(|i: int| lo <= i < hi && s[i] == x).len(),
    decreases hi - lo,
{
    let matches_all = Set::new(|i: int| lo <= i < hi && s[i] == x);
    if hi <= lo {
        assert(matches_all =~= Set::<int>::empty());
    } else {
        lemma_count_in_is_card(s, x, lo, hi - 1);
        let matches_head = Set::new(|i: int| lo <= i < hi - 1 && s[i] == x);
        if s[hi - 1] == x {
            assert(matches_all =~= matches_head.insert(hi - 1));
            assert(!matches_head.contains(hi - 1));
        } else {
            assert(matches_all =~= matches_head);
        }
    }
}

/// Count correctness: an array holds exactly `k` occurrences of a needle
/// if and only if the set of matching indices has size `k`, and the count
/// operations return exactly that size.
pub proof fn lemma_count_is_card<T>(s: Seq<T>, x: T)
    ensures
        Set::new(|i: int| 0 <= i < s.len() && s[i] == x).finite(),
        count_of(s, x) == Set::new(|i: int| 0 <= i < s.len() && s[i] == x).len(),
{
    lemma_count_in_is_card(s, x, 0, s.len() as int);
}

} // verus!
