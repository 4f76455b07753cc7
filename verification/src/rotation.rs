//! In-place right rotation by triple reversal.

use vstd::prelude::*;
use crate::Solution;

verus! {

/// The sequence `s` rotated right by `k` positions: each element moves from
/// index `i` to index `(i + k) % len`, so the last `k % len` elements come to
/// the front. The empty sequence rotates to itself.
pub open spec fn rotated_right(s: Seq<i32>, k: int) -> Seq<i32> {
    if s.len() == 0 {
        s
    } else {
        let k0 = k % (s.len() as int);
        s.subrange(s.len() - k0, s.len() as int) + s.subrange(0, s.len() - k0)
    }
}

/// Reverses `nums` between `start` (inclusive) and `end` (exclusive),
/// leaving everything outside that range alone.
fn reverse_range(nums: &mut Vec<i32>, start: usize, end: usize)
    requires
        start <= end <= old(nums)@.len(),
    ensures
        final(nums)@.len() == old(nums)@.len(),
        forall|i: int| 0 <= i < start ==> #[trigger] final(nums)@[i] == old(nums)@[i],
        forall|i: int| end <= i < old(nums)@.len() ==> #[trigger] final(nums)@[i] == old(nums)@[i],
        forall|i: int| start <= i < end ==> #[trigger] final(nums)@[i] == old(nums)@[start + end
            - 1 - i],
{
    if end - start < 2 {
        return;
    }
    let mut left = start;
    let mut right = end - 1;
    while left < right
        invariant
            start <= left,
            right < end <= nums@.len(),
            left + right == start + end - 1,
            nums@.len() == old(nums)@.len(),
            forall|i: int| 0 <= i < start ==> #[trigger] nums@[i] == old(nums)@[i],
            forall|i: int| end <= i < old(nums)@.len() ==> #[trigger] nums@[i] == old(nums)@[i],
            forall|i: int| start <= i < left ==> #[trigger] nums@[i] == old(nums)@[start + end - 1
                - i],
            forall|i: int| right < i < end ==> #[trigger] nums@[i] == old(nums)@[start + end - 1
                - i],
            forall|i: int| left <= i <= right ==> #[trigger] nums@[i] == old(nums)@[i],
        decreases right + 1 - left,
    {
        let a = nums[left];
        let b = nums[right];
        nums.set(left, b);
        nums.set(right, a);
        left = left + 1;
        right = right - 1;
    }
}

impl Solution {
    /// Rotates the sequence right by `k` positions in place. `k` may exceed
    /// the length; it is taken modulo the length first. Empty input and a
    /// reduced count of zero are no-ops.
    pub fn rotate(nums: &mut Vec<i32>, k: i32)
        requires
            k >= 0,
        ensures
            final(nums)@ == rotated_right(old(nums)@, k as int),
    {
        if nums.is_empty() {
            return;
        }

        let n = nums.len();
        let k_red = (k as usize) % n;
        if k_red == 0 {
            proof {
                assert(rotated_right(nums@, k as int) =~= nums@);
            }
            return;
        }

        let ghost orig = nums@;
        reverse_range(nums, 0, n);
        let ghost whole = nums@;
        reverse_range(nums, 0, k_red);
        let ghost front = nums@;
        reverse_range(nums, k_red, n);

        proof {
            let k0 = k_red as int;
            let len = orig.len() as int;
            assert forall|i: int| 0 <= i < len implies nums@[i] == rotated_right(orig, k as int)[i]
                by {
                if i < k0 {
                    assert(nums@[i] == front[i]);
                    assert(front[i] == whole[k0 - 1 - i]);
                    assert(whole[k0 - 1 - i] == orig[len - 1 - (k0 - 1 - i)]);
                } else {
                    assert(nums@[i] == front[k_red + n - 1 - i]);
                    assert(front[k0 + len - 1 - i] == whole[k0 + len - 1 - i]);
                    assert(whole[k0 + len - 1 - i] == orig[len - 1 - (k0 + len - 1 - i)]);
                }
            }
            assert(nums@ =~= rotated_right(orig, k as int));
        }
    }
}

/// Rotating right by `k` and then by `len - k % len` restores the sequence.
pub proof fn lemma_rotate_round_trip(s: Seq<i32>, k: int)
    requires
        s.len() > 0,
        k >= 0,
    ensures
        rotated_right(rotated_right(s, k), s.len() - k % (s.len() as int)) == s,
{
    let len = s.len() as int;
    let k0 = k % len;
    let t = rotated_right(s, k);
    let back = rotated_right(t, len - k0);
    if k0 == 0 {
        vstd::arithmetic::div_mod::lemma_mod_self_0(len);
        assert(t =~= s);
        assert(back =~= s);
    } else {
        vstd::arithmetic::div_mod::lemma_small_mod((len - k0) as nat, len as nat);
        assert((len - k0) % len == len - k0);
        assert forall|i: int| 0 <= i < len implies back[i] == s[i] by {
            if i < len - k0 {
                assert(back[i] == t[k0 + i]);
                assert(t[k0 + i] == s[i]);
            } else {
                assert(back[i] == t[i - (len - k0)]);
                assert(t[i - (len - k0)] == s[i]);
            }
        }
        assert(back =~= s);
    }
}

} // verus!
