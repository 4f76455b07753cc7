//! Finding the first pair of positions whose values reach a target sum.

use vstd::prelude::*;
use std::collections::HashMap;
use crate::Solution;

verus! {

broadcast use vstd::std_specs::hash::group_hash_axioms;

/// `i` and `j` are positions in `s`, in order, whose values sum to `t`.
pub open spec fn pair_at(s: Seq<i32>, t: int, i: int, j: int) -> bool {
    0 <= i < j < s.len() && s[i] + s[j] == t
}

/// Some ordered pair of positions in `s` sums to `t`.
pub open spec fn has_pair(s: Seq<i32>, t: int) -> bool {
    exists|i: int, j: int| pair_at(s, t, i, j)
}

impl Solution {
    /// Positions `[i, j]`, `i < j`, of the first two elements summing to
    /// `target`: `j` is the least second position of any such pair, and `i`
    /// is the earliest position holding the needed complement value. When no
    /// pair sums to `target`, the result is empty.
    pub fn two_sum(nums: Vec<i32>, target: i32) -> (r: Vec<i32>)
        requires
            nums@.len() <= i32::MAX,
        ensures
            !has_pair(nums@, target as int) ==> r@.len() == 0,
            has_pair(nums@, target as int) ==> {
                &&& r@.len() == 2
                &&& 0 <= r@[0] < r@[1] < nums@.len()
                &&& pair_at(nums@, target as int, r@[0] as int, r@[1] as int)
                &&& forall|i: int, j: int| pair_at(nums@, target as int, i, j) ==> r@[1] <= j
                &&& forall|i: int| 0 <= i < r@[0] ==> #[trigger] nums@[i] != nums@[r@[0] as int]
            },
    {
        let mut map: HashMap<i64, usize> = HashMap::new();
        let mut pos: usize = 0;

        while pos < nums.len()
            invariant
                nums@.len() <= i32::MAX,
                pos <= nums@.len(),
                forall|v: i64| #[trigger] map@.contains_key(v) ==> {
                    &&& map@[v] < pos
                    &&& nums@[map@[v] as int] as i64 == v
                    &&& forall|m: int| 0 <= m < map@[v] ==> #[trigger] nums@[m] as i64 != v
                },
                forall|m: int| 0 <= m < pos ==> map@.contains_key(#[trigger] nums@[m] as i64),
                forall|i: int, j: int| 0 <= i < j < pos ==> !pair_at(nums@, target as int, i, j),
            decreases nums@.len() - pos,
        {
            let complement: i64 = target as i64 - nums[pos] as i64;
            match map.get(&complement) {
                Some(found) => {
                    let first = *found;
                    proof {
                        assert(map@.contains_key(complement));
                        assert(pair_at(nums@, target as int, first as int, pos as int));
                    }
                    return vec![first as i32, pos as i32];
                },
                None => {},
            }
            if !map.contains_key(&(nums[pos] as i64)) {
                map.insert(nums[pos] as i64, pos);
            }
            pos = pos + 1;
        }
        Vec::new()
    }
}

} // verus!
