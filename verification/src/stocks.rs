//! Best profit from one buy followed by one later sell.

use vstd::prelude::*;
use crate::Solution;

verus! {

impl Solution {
    /// Greatest `prices[j] - prices[i]` over all pairs `i < j`, or 0 when no
    /// pair is profitable (including empty and single-element inputs).
    pub fn max_profit(prices: Vec<i32>) -> (best: i32)
        requires
            forall|i: int, j: int|
                #![trigger prices@[i], prices@[j]]
                0 <= i < j < prices@.len() ==> i32::MIN <= prices@[j] - prices@[i] <= i32::MAX,
        ensures
            best >= 0,
            forall|i: int, j: int|
                #![trigger prices@[i], prices@[j]]
                0 <= i < j < prices@.len() ==> prices@[j] - prices@[i] <= best,
            best == 0 || exists|i: int, j: int|
                #![trigger prices@[i], prices@[j]]
                0 <= i < j < prices@.len() && prices@[j] - prices@[i] == best,
    {
        if prices.is_empty() {
            return 0;
        }

        let mut min_price = prices[0];
        let mut best: i32 = 0;

        for pos in 1..prices.len()
            invariant
                prices@.len() >= 1,
                forall|i: int, j: int|
                    #![trigger prices@[i], prices@[j]]
                    0 <= i < j < prices@.len() ==> i32::MIN <= prices@[j] - prices@[i] <= i32::MAX,
                exists|m: int| 0 <= m < pos && prices@[m] == min_price,
                forall|m: int| 0 <= m < pos ==> min_price <= prices@[m],
                best >= 0,
                forall|i: int, j: int|
                    #![trigger prices@[i], prices@[j]]
                    0 <= i < j < pos ==> prices@[j] - prices@[i] <= best,
                best == 0 || exists|i: int, j: int|
                    #![trigger prices@[i], prices@[j]]
                    0 <= i < j < pos && prices@[j] - prices@[i] == best,
        {
            if min_price > prices[pos] {
                min_price = prices[pos];
            } else {
                let profit = prices[pos] - min_price;
                if best < profit {
                    best = profit;
                }
            }
        }
        best
    }
}

} // verus!
