//! Incrementing a decimal number held as one digit per slot,
//! most significant digit first.

use vstd::prelude::*;
use crate::Solution;

verus! {

/// The non-negative integer that a most-significant-first digit sequence denotes.
pub open spec fn digits_val(s: Seq<i32>) -> int
    decreases s.len(),
{
    if s.len() == 0 {
        0
    } else {
        digits_val(s.drop_last()) * 10 + s.last()
    }
}

/// Ten to the power `n`.
pub open spec fn pow10(n: nat) -> int
    decreases n,
{
    if n == 0 {
        1
    } else {
        10 * pow10((n - 1) as nat)
    }
}

/// Incrementing one digit and zeroing the nines to its right adds one
/// to the denoted value.
proof fn lemma_increment_at(s: Seq<i32>, t: Seq<i32>, pos: int)
    requires
        s.len() == t.len(),
        0 <= pos < s.len(),
        forall|i: int| 0 <= i < pos ==> s[i] == #[trigger] t[i],
        t[pos] == s[pos] + 1,
        forall|i: int| pos < i < s.len() ==> #[trigger] s[i] == 9,
        forall|i: int| pos < i < s.len() ==> #[trigger] t[i] == 0,
    ensures
        digits_val(t) == digits_val(s) + 1,
    decreases s.len(),
{
    if pos == s.len() - 1 {
        assert(s.drop_last() =~= t.drop_last());
    } else {
        lemma_increment_at(s.drop_last(), t.drop_last(), pos);
    }
}

/// A sequence of nines denotes one less than the next power of ten.
proof fn lemma_val_all_nines(s: Seq<i32>)
    requires
        forall|i: int| 0 <= i < s.len() ==> #[trigger] s[i] == 9,
    ensures
        digits_val(s) == pow10(s.len()) - 1,
    decreases s.len(),
{
    if s.len() > 0 {
        lemma_val_all_nines(s.drop_last());
    }
}

/// A one followed by zeros denotes a power of ten.
proof fn lemma_val_one_then_zeros(s: Seq<i32>)
    requires
        s.len() >= 1,
        s[0] == 1,
        forall|i: int| 1 <= i < s.len() ==> #[trigger] s[i] == 0,
    ensures
        digits_val(s) == pow10((s.len() - 1) as nat),
    decreases s.len(),
{
    if s.len() > 1 {
        lemma_val_one_then_zeros(s.drop_last());
    } else {
        assert(digits_val(s.drop_last()) == 0);
    }
}

impl Solution {
    /// Digit sequence of the denoted integer plus one. The result reuses the
    /// input's length unless every digit is a nine, in which case a leading
    /// one is added before an all-zero tail.
    pub fn plus_one(digits: Vec<i32>) -> (r: Vec<i32>)
        requires
            forall|i: int| 0 <= i < digits@.len() ==> 0 <= #[trigger] digits@[i] <= 9,
        ensures
            forall|i: int| 0 <= i < r@.len() ==> 0 <= #[trigger] r@[i] <= 9,
            digits_val(r@) == digits_val(digits@) + 1,
            r@.len() == digits@.len() || r@.len() == digits@.len() + 1,
            (r@.len() == digits@.len() + 1) <==> (forall|i: int|
                0 <= i < digits@.len() ==> #[trigger] digits@[i] == 9),
            r@.len() == digits@.len() + 1 ==> r@[0] == 1,
    {
        let ghost orig = digits@;
        let mut work = digits;
        let mut pos: usize = work.len();

        while pos > 0
            invariant
                digits@ == orig,
                pos <= orig.len(),
                work@.len() == orig.len(),
                forall|i: int| 0 <= i < orig.len() ==> 0 <= #[trigger] orig[i] <= 9,
                forall|i: int| 0 <= i < pos ==> #[trigger] work@[i] == orig[i],
                forall|i: int| pos <= i < orig.len() ==> #[trigger] orig[i] == 9,
                forall|i: int| pos <= i < orig.len() ==> #[trigger] work@[i] == 0,
            decreases pos,
        {
            pos = pos - 1;
            if work[pos] < 9 {
                let incremented = work[pos] + 1;
                let ghost pre = work@;
                work.set(pos, incremented);
                proof {
                    assert forall|i: int| pos < i < orig.len() implies #[trigger] work@[i]
                        == 0 by {
                        assert(work@[i] == pre[i]);
                    }
                    lemma_increment_at(orig, work@, pos as int);
                    assert(orig[pos as int] < 9);
                }
                return work;
            }
            work.set(pos, 0);
        }

        let mut result: Vec<i32> = Vec::new();
        result.push(1);
        let mut added: usize = 0;
        while added < work.len()
            invariant
                work@.len() == orig.len(),
                result@.len() == added + 1,
                result@[0] == 1,
                forall|i: int| 1 <= i < result@.len() ==> #[trigger] result@[i] == 0,
                added <= work@.len(),
            decreases work@.len() - added,
        {
            result.push(0);
            added = added + 1;
        }
        proof {
            lemma_val_all_nines(orig);
            lemma_val_one_then_zeros(result@);
        }
        result
    }
}

} // verus!
