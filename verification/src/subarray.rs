//! Maximum sum of a contiguous, non-empty subsequence.

use vstd::prelude::*;
use crate::Solution;

verus! {

/// Sum of the elements of `s` with indices in the half-open range `[i, j)`.
pub open spec fn range_sum(s: Seq<i32>, i: int, j: int) -> int
    decreases j - i,
{
    if i >= j {
        0
    } else {
        range_sum(s, i, j - 1) + s[j - 1]
    }
}

impl Solution {
    /// Greatest `range_sum` over all non-empty contiguous ranges, or 0 for an
    /// empty sequence. All-negative inputs yield the least-negative element.
    pub fn max_sub_array(nums: Vec<i32>) -> (best: i32)
        requires
            forall|i: int, j: int|
                0 <= i <= j <= nums@.len() ==> i32::MIN <= #[trigger] range_sum(nums@, i, j)
                    <= i32::MAX,
        ensures
            nums@.len() == 0 ==> best == 0,
            forall|i: int, j: int|
                0 <= i < j <= nums@.len() ==> #[trigger] range_sum(nums@, i, j) <= best,
            nums@.len() > 0 ==> exists|i: int, j: int|
                0 <= i < j <= nums@.len() && #[trigger] range_sum(nums@, i, j) == best,
    {
        if nums.is_empty() {
            return 0;
        }

        let mut cur = nums[0];
        let mut best = nums[0];

        proof {
            assert(range_sum(nums@, 0, 0) == 0);
            assert(range_sum(nums@, 0, 1) == cur);
        }

        let mut pos: usize = 1;
        while pos < nums.len()
            invariant
                nums@.len() >= 1,
                1 <= pos <= nums@.len(),
                forall|i: int, j: int|
                    0 <= i <= j <= nums@.len() ==> i32::MIN <= #[trigger] range_sum(nums@, i, j)
                        <= i32::MAX,
                forall|i: int| 0 <= i < pos ==> #[trigger] range_sum(nums@, i, pos as int) <= cur,
                exists|i: int| 0 <= i < pos && #[trigger] range_sum(nums@, i, pos as int) == cur,
                forall|i: int, j: int|
                    0 <= i < j <= pos ==> #[trigger] range_sum(nums@, i, j) <= best,
                exists|i: int, j: int|
                    0 <= i < j <= pos && #[trigger] range_sum(nums@, i, j) == best,
            decreases nums@.len() - pos,
        {
            proof {
                let i0 = choose|i: int| 0 <= i < pos && range_sum(nums@, i, pos as int) == cur;
                assert(range_sum(nums@, i0, pos + 1) == cur + nums@[pos as int]);
            }
            let extended = cur + nums[pos];
            cur = if nums[pos] > extended {
                nums[pos]
            } else {
                extended
            };
            proof {
                assert(range_sum(nums@, pos as int, pos as int) == 0);
                assert(range_sum(nums@, pos as int, pos + 1) == nums@[pos as int]);
                assert forall|i: int| 0 <= i < pos + 1 implies #[trigger] range_sum(
                    nums@,
                    i,
                    pos + 1,
                ) <= cur by {
                    assert(range_sum(nums@, i, pos + 1) == range_sum(nums@, i, pos as int)
                        + nums@[pos as int]);
                }
            }
            if cur > best {
                best = cur;
            }
            pos = pos + 1;
        }
        best
    }
}

/// The maximum subarray sum is bounded below by every single element: the
/// one-element range at each index is itself a contiguous subsequence.
pub proof fn lemma_max_sub_array_at_least_max_element(s: Seq<i32>, best: int)
    requires
        forall|i: int, j: int| 0 <= i < j <= s.len() ==> #[trigger] range_sum(s, i, j) <= best,
        exists|i: int, j: int| 0 <= i < j <= s.len() && #[trigger] range_sum(s, i, j) == best,
    ensures
        forall|i: int| 0 <= i < s.len() ==> s[i] <= best,
{
    assert forall|i: int| 0 <= i < s.len() implies s[i] <= best by {
        assert(range_sum(s, i, i) == 0);
        assert(range_sum(s, i, i + 1) == s[i]);
    }
}

} // verus!
