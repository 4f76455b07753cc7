//! Product of all elements except the one at each position, without division.

use vstd::prelude::*;
use crate::Solution;

verus! {

/// Product of all elements of `s`; 1 for the empty sequence.
pub open spec fn product(s: Seq<i32>) -> int
    decreases s.len(),
{
    if s.len() == 0 {
        1
    } else {
        product(s.drop_last()) * s.last()
    }
}

/// The product can also be peeled from the front.
proof fn lemma_product_front(s: Seq<i32>)
    requires
        s.len() > 0,
    ensures
        product(s) == s[0] * product(s.drop_first()),
    decreases s.len(),
{
    if s.len() == 1 {
        assert(product(s.drop_last()) == 1);
        assert(product(s.drop_first()) == 1);
    } else {
        lemma_product_front(s.drop_last());
        assert(s.drop_last().drop_first() =~= s.drop_first().drop_last());
        assert(s.drop_first().last() == s.last());
        assert((s[0] * product(s.drop_first().drop_last())) * s.last() == s[0] * (product(
            s.drop_first().drop_last(),
        ) * s.last())) by (nonlinear_arith);
    }
}

/// The whole product splits at any position into the product of what comes
/// before, the element itself, and the product of what comes after.
pub proof fn lemma_product_split(s: Seq<i32>, i: int)
    requires
        0 <= i < s.len(),
    ensures
        product(s) == product(s.take(i)) * s[i] * product(s.skip(i + 1)),
    decreases s.len(),
{
    if i == s.len() - 1 {
        assert(s.take(i) =~= s.drop_last());
        assert(s.skip(i + 1) =~= Seq::<i32>::empty());
        assert(product(s.skip(i + 1)) == 1);
    } else {
        lemma_product_split(s.drop_last(), i);
        assert(s.drop_last().take(i) =~= s.take(i));
        assert(s.drop_last().skip(i + 1) =~= s.skip(i + 1).drop_last());
        assert(s.skip(i + 1).last() == s.last());
        let p = product(s.take(i));
        let q = product(s.skip(i + 1).drop_last());
        assert((p * s[i] * q) * s.last() == p * s[i] * (q * s.last())) by (nonlinear_arith);
    }
}

/// When the element at `i` is not zero, the product of all other elements is
/// the quotient of the whole product by that element.
pub proof fn lemma_product_except_is_quotient(s: Seq<i32>, i: int)
    requires
        0 <= i < s.len(),
        s[i] != 0,
    ensures
        product(s.take(i)) * product(s.skip(i + 1)) == product(s) / (s[i] as int),
{
    lemma_product_split(s, i);
    let a = product(s.take(i));
    let b = product(s.skip(i + 1));
    let d = s[i] as int;
    assert(a * d * b == (a * b) * d) by (nonlinear_arith);
    assert(((a * b) * d) / d == a * b) by (nonlinear_arith)
        requires
            d != 0,
    ;
}

impl Solution {
    /// Sequence of the same length where slot `i` holds the product of every
    /// element except `nums[i]`, computed without dividing, so inputs holding
    /// zeros are handled exactly. A single-element input yields `[1]`.
    pub fn product_except_self(nums: Vec<i32>) -> (r: Vec<i32>)
        requires
            forall|i: int|
                0 <= i <= nums@.len() ==> i32::MIN <= #[trigger] product(nums@.take(i))
                    <= i32::MAX,
            forall|i: int|
                0 <= i <= nums@.len() ==> i32::MIN <= #[trigger] product(nums@.skip(i))
                    <= i32::MAX,
            forall|i: int|
                0 <= i < nums@.len() ==> i32::MIN <= product(nums@.take(i)) * #[trigger] product(
                    nums@.skip(i + 1),
                ) <= i32::MAX,
        ensures
            r@.len() == nums@.len(),
            forall|i: int|
                0 <= i < nums@.len() ==> #[trigger] r@[i] == product(nums@.take(i)) * product(
                    nums@.skip(i + 1),
                ),
    {
        let n = nums.len();
        let mut result: Vec<i32> = Vec::new();
        while result.len() < n
            invariant
                result@.len() <= n == nums@.len(),
                forall|j: int| 0 <= j < result@.len() ==> #[trigger] result@[j] == 1,
            decreases n - result@.len(),
        {
            result.push(1);
        }

        proof {
            assert(nums@.take(0) =~= Seq::<i32>::empty());
        }
        let mut pos: usize = 1;
        while pos < n
            invariant
                nums@.len() == n,
                result@.len() == n,
                1 <= pos <= n || n == 0,
                forall|i: int|
                    0 <= i <= nums@.len() ==> i32::MIN <= #[trigger] product(nums@.take(i))
                        <= i32::MAX,
                forall|j: int| 0 <= j < pos && j < n ==> #[trigger] result@[j] == product(
                    nums@.take(j),
                ),
                forall|j: int| pos <= j < n ==> #[trigger] result@[j] == 1,
            decreases n - pos,
        {
            proof {
                assert(nums@.take(pos as int).drop_last() =~= nums@.take(pos - 1));
                assert(product(nums@.take(pos as int)) == product(nums@.take(pos - 1))
                    * nums@[pos - 1]);
                let a = nums@[pos - 1] as int;
                let b = result@[pos - 1] as int;
                assert(a * b == b * a) by (nonlinear_arith);
            }
            let value = nums[pos - 1] * result[pos - 1];
            result.set(pos, value);
            pos = pos + 1;
        }

        proof {
            assert(nums@.skip(n as int) =~= Seq::<i32>::empty());
        }
        let mut right_product: i32 = 1;
        let mut pos: usize = n;
        while pos > 0
            invariant
                nums@.len() == n,
                result@.len() == n,
                pos <= n,
                forall|i: int|
                    0 <= i <= nums@.len() ==> i32::MIN <= #[trigger] product(nums@.take(i))
                        <= i32::MAX,
                forall|i: int|
                    0 <= i <= nums@.len() ==> i32::MIN <= #[trigger] product(nums@.skip(i))
                        <= i32::MAX,
                forall|i: int|
                    0 <= i < nums@.len() ==> i32::MIN <= product(nums@.take(i)) * #[trigger] product(
                        nums@.skip(i + 1),
                    ) <= i32::MAX,
                right_product == product(nums@.skip(pos as int)),
                forall|j: int| 0 <= j < pos ==> #[trigger] result@[j] == product(nums@.take(j)),
                forall|j: int| pos <= j < n ==> #[trigger] result@[j] == product(nums@.take(j))
                    * product(nums@.skip(j + 1)),
            decreases pos,
        {
            pos = pos - 1;
            proof {
                assert(right_product == product(nums@.skip(pos + 1)));
                assert(i32::MIN <= product(nums@.take(pos as int)) * product(nums@.skip(pos + 1))
                    <= i32::MAX);
            }
            let value = result[pos] * right_product;
            result.set(pos, value);
            proof {
                assert(nums@.skip(pos as int).drop_first() =~= nums@.skip(pos + 1));
                lemma_product_front(nums@.skip(pos as int));
                assert(nums@.skip(pos as int)[0] == nums@[pos as int]);
                let a = nums@[pos as int] as int;
                let b = right_product as int;
                assert(a * b == b * a) by (nonlinear_arith);
            }
            right_product = right_product * nums[pos];
        }
        result
    }
}

} // verus!
