//! Detecting a repeated value in a sequence.

use vstd::prelude::*;
use std::collections::HashSet;
use crate::Solution;

verus! {

broadcast use vstd::std_specs::hash::group_hash_axioms;

impl Solution {
    /// True exactly when some value occurs at two distinct positions.
    /// An empty sequence holds no repeat.
    pub fn contains_duplicate(nums: Vec<i32>) -> (dup: bool)
        ensures
            dup <==> exists|i: int, j: int|
                #![trigger nums@[i], nums@[j]]
                0 <= i < j < nums@.len() && nums@[i] == nums@[j],
    {
        let mut seen: HashSet<i32> = HashSet::new();

        for pos in 0..nums.len()
            invariant
                forall|v: i32| #[trigger] seen@.contains(v) <==> exists|m: int|
                    0 <= m < pos && nums@[m] == v,
                forall|i: int, j: int|
                    #![trigger nums@[i], nums@[j]]
                    0 <= i < j < pos ==> nums@[i] != nums@[j],
        {
            if seen.contains(&nums[pos]) {
                assert(seen@.contains(nums@[pos as int]));
                return true;
            }
            seen.insert(nums[pos]);
        }
        false
    }
}

/// A sequence holds a repeated value exactly when its set of distinct values
/// has smaller cardinality than the sequence itself.
pub proof fn lemma_duplicate_iff_fewer_distinct(s: Seq<i32>)
    ensures
        (exists|i: int, j: int|
            #![trigger s[i], s[j]]
            0 <= i < j < s.len() && s[i] == s[j]) <==> s.to_set().len() < s.len(),
{
    s.lemma_cardinality_of_set();
    if exists|i: int, j: int| #![trigger s[i], s[j]] 0 <= i < j < s.len() && s[i] == s[j] {
        assert(!s.no_duplicates());
        if s.to_set().len() == s.len() {
            s.lemma_no_dup_set_cardinality();
        }
    }
    if s.to_set().len() < s.len() {
        if s.no_duplicates() {
            s.unique_seq_to_set();
        }
        assert(!s.no_duplicates());
        let (i, j) = choose|i: int, j: int|
            0 <= i < s.len() && 0 <= j < s.len() && i != j && s[i] == s[j];
        if i < j {
            assert(0 <= i < j < s.len() && s[i] == s[j]);
        } else {
            assert(0 <= j < i < s.len() && s[j] == s[i]);
        }
    }
}

} // verus!
