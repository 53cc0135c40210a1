//! Contiguous sub-array search: whether one slice occurs, in order and
//! without gaps, inside another. An empty needle is reported as absent.

use vstd::prelude::*;

verus! {

/// `sub` occurs in `arr` starting at position `i`.
pub open spec fn matches_at(arr: Seq<i32>, sub: Seq<i32>, i: int) -> bool {
    forall|k: int| 0 <= k < sub.len() ==> arr[i + k] == sub[k]
}

/// Whether `sub_arr` occurs contiguously somewhere in `arr`. The needle
/// must not be longer than the haystack; an empty needle gives `false`.
pub fn check_sub_array(arr: &[i32], sub_arr: &[i32]) -> (r: bool)
    requires
        sub_arr@.len() <= arr@.len(),
    ensures
        r == (sub_arr@.len() > 0 && exists|i: int|
            0 <= i <= arr@.len() - sub_arr@.len() && matches_at(arr@, sub_arr@, i)),
{
    let n = arr.len();
    let m = sub_arr.len();
    if m == 0 {
        return false;
    }
    let mut found = false;
    let mut i: usize = 0;
    while i <= n - m
        invariant
            1 <= m <= n,
            n == arr@.len(),
            m == sub_arr@.len(),
            i <= n - m + 1,
            found == (m > 0 && exists|p: int| 0 <= p < i && matches_at(arr@, sub_arr@, p)),
        decreases n - m + 1 - i,
    {
        let ghost found0 = found;
        let mut k: usize = 0;
        while k < m
            invariant_except_break
                k <= m,
                i + m <= n,
                n == arr@.len(),
                m == sub_arr@.len(),
                m > 0 ==> k < m,
                found == found0,
                forall|q: int| 0 <= q < k ==> arr@[i + q] == sub_arr@[q],
            ensures
                n == arr@.len(),
                m == sub_arr@.len(),
                i + m <= n,
                found == (found0 || (m > 0 && matches_at(arr@, sub_arr@, i as int))),
            decreases m - k,
        {
            if sub_arr[k] != arr[i + k] {
                proof {
                    assert(arr@[i + k] != sub_arr@[k as int]);
                    assert(!matches_at(arr@, sub_arr@, i as int));
                }
                break;
            }
            if k == m - 1 {
                found = true;
                proof {
                    assert forall|q: int| 0 <= q < m implies arr@[i + q] == sub_arr@[q] by {
                        if q == k {
                            assert(arr@[i + q] == sub_arr@[q]);
                        }
                    }
                }
                break;
            }
            k = k + 1;
        }
        proof {
            if found && !found0 {
                assert(matches_at(arr@, sub_arr@, i as int));
            }
            if !found {
                assert(!(m > 0 && matches_at(arr@, sub_arr@, i as int)));
            }
        }
        i = i + 1;
    }
    found
}

} // verus!
