//! All distinct value triplets that sum to zero.

use vstd::prelude::*;
use crate::Solution;

verus! {

/// How many positions of `s` hold the value `v`.
pub open spec fn count_val(s: Seq<i32>, v: i32) -> nat
    decreases s.len(),
{
    if s.len() == 0 {
        0
    } else {
        count_val(s.drop_last(), v) + if s.last() == v {
            1nat
        } else {
            0nat
        }
    }
}

/// Every value occurs in `t` at most as often as in `s`, so the elements of
/// `t` can be drawn from distinct positions of `s`.
pub open spec fn drawn_from(s: Seq<i32>, t: Seq<i32>) -> bool {
    forall|v: i32| #[trigger] count_val(t, v) <= count_val(s, v)
}

/// `t` is a sorted three-element selection from `s` whose values sum to zero.
pub open spec fn is_zero_triplet(s: Seq<i32>, t: Seq<i32>) -> bool {
    &&& t.len() == 3
    &&& t[0] <= t[1] <= t[2]
    &&& t[0] + t[1] + t[2] == 0
    &&& drawn_from(s, t)
}

/// The elements of `s` are in non-decreasing order.
pub open spec fn sorted(s: Seq<i32>) -> bool {
    forall|i: int, j: int| 0 <= i <= j < s.len() ==> #[trigger] s[i] <= #[trigger] s[j]
}

/// The sequence `t` appears as the view of some slot of `rs`.
pub open spec fn recorded(rs: Seq<Vec<i32>>, t: Seq<i32>) -> bool {
    exists|idx: int| 0 <= idx < rs.len() && #[trigger] rs[idx]@ == t
}

proof fn lemma_count_at_least_one(s: Seq<i32>, p: int)
    requires
        0 <= p < s.len(),
    ensures
        count_val(s, s[p]) >= 1,
    decreases s.len(),
{
    if p < s.len() - 1 {
        lemma_count_at_least_one(s.drop_last(), p);
    }
}

proof fn lemma_count_at_least_two(s: Seq<i32>, p: int, q: int)
    requires
        0 <= p < q < s.len(),
        s[p] == s[q],
    ensures
        count_val(s, s[p]) >= 2,
    decreases s.len(),
{
    if q == s.len() - 1 {
        lemma_count_at_least_one(s.drop_last(), p);
    } else {
        lemma_count_at_least_two(s.drop_last(), p, q);
    }
}

proof fn lemma_count_at_least_three(s: Seq<i32>, p: int, q: int, r: int)
    requires
        0 <= p < q < r < s.len(),
        s[p] == s[q] && s[q] == s[r],
    ensures
        count_val(s, s[p]) >= 3,
    decreases s.len(),
{
    if r == s.len() - 1 {
        lemma_count_at_least_two(s.drop_last(), p, q);
    } else {
        lemma_count_at_least_three(s.drop_last(), p, q, r);
    }
}

proof fn lemma_index_of_count(s: Seq<i32>, v: i32)
    requires
        count_val(s, v) >= 1,
    ensures
        exists|p: int| 0 <= p < s.len() && s[p] == v,
    decreases s.len(),
{
    if s.last() == v {
        assert(s[s.len() - 1] == v);
    } else {
        lemma_index_of_count(s.drop_last(), v);
        let p = choose|p: int| 0 <= p < s.drop_last().len() && s.drop_last()[p] == v;
        assert(s[p] == v);
    }
}

proof fn lemma_two_indices_of_count(s: Seq<i32>, v: i32)
    requires
        count_val(s, v) >= 2,
    ensures
        exists|p: int, q: int| 0 <= p < q < s.len() && s[p] == v && s[q] == v,
    decreases s.len(),
{
    if s.last() == v {
        lemma_index_of_count(s.drop_last(), v);
        let p = choose|p: int| 0 <= p < s.drop_last().len() && s.drop_last()[p] == v;
        assert(s[p] == v && s[s.len() - 1] == v);
    } else {
        lemma_two_indices_of_count(s.drop_last(), v);
        let (p, q) = choose|p: int, q: int|
            0 <= p < q < s.drop_last().len() && s.drop_last()[p] == v && s.drop_last()[q] == v;
        assert(s[p] == v && s[q] == v);
    }
}

proof fn lemma_three_indices_of_count(s: Seq<i32>, v: i32)
    requires
        count_val(s, v) >= 3,
    ensures
        exists|p: int, q: int, r: int|
            0 <= p < q < r < s.len() && s[p] == v && s[q] == v && s[r] == v,
    decreases s.len(),
{
    if s.last() == v {
        lemma_two_indices_of_count(s.drop_last(), v);
        let (p, q) = choose|p: int, q: int|
            0 <= p < q < s.drop_last().len() && s.drop_last()[p] == v && s.drop_last()[q] == v;
        assert(s[p] == v && s[q] == v && s[s.len() - 1] == v);
    } else {
        lemma_three_indices_of_count(s.drop_last(), v);
        let (p, q, r) = choose|p: int, q: int, r: int|
            0 <= p < q < r < s.drop_last().len() && s.drop_last()[p] == v && s.drop_last()[q] == v
                && s.drop_last()[r] == v;
        assert(s[p] == v && s[q] == v && s[r] == v);
    }
}

/// Occurrence counts in a three-element sequence, written out.
proof fn lemma_count_triple(x: i32, y: i32, z: i32, v: i32)
    ensures
        count_val(seq![x, y, z], v) as int == (if x == v {
            1int
        } else {
            0int
        }) + (if y == v {
            1int
        } else {
            0int
        }) + (if z == v {
            1int
        } else {
            0int
        }),
{
    let t = seq![x, y, z];
    assert(t.drop_last() =~= seq![x, y]);
    assert(seq![x, y].drop_last() =~= seq![x]);
    assert(seq![x].drop_last() =~= Seq::<i32>::empty());
    assert(count_val(Seq::<i32>::empty(), v) == 0);
    assert(count_val(seq![x], v) as int == if x == v {
        1int
    } else {
        0int
    });
    assert(count_val(seq![x, y], v) as int == count_val(seq![x], v) as int + if y == v {
        1int
    } else {
        0int
    });
}

/// Three positions in order yield a selection that `s` can supply.
proof fn lemma_indices_give_triplet(s: Seq<i32>, p: int, q: int, r: int)
    requires
        0 <= p < q < r < s.len(),
    ensures
        drawn_from(s, seq![s[p], s[q], s[r]]),
{
    let t = seq![s[p], s[q], s[r]];
    assert forall|v: i32| #[trigger] count_val(t, v) <= count_val(s, v) by {
        lemma_count_triple(s[p], s[q], s[r], v);
        if s[p] == v && s[q] == v && s[r] == v {
            lemma_count_at_least_three(s, p, q, r);
        } else if s[p] == v && s[q] == v {
            lemma_count_at_least_two(s, p, q);
        } else if s[p] == v && s[r] == v {
            lemma_count_at_least_two(s, p, r);
        } else if s[q] == v && s[r] == v {
            lemma_count_at_least_two(s, q, r);
        } else if s[p] == v {
            lemma_count_at_least_one(s, p);
        } else if s[q] == v {
            lemma_count_at_least_one(s, q);
        } else if s[r] == v {
            lemma_count_at_least_one(s, r);
        }
    }
}

/// In a sorted sequence, any sorted three-element selection sits at three
/// increasing positions.
proof fn lemma_sorted_triplet_has_indices(s: Seq<i32>, t: Seq<i32>)
    requires
        sorted(s),
        t.len() == 3,
        t[0] <= t[1] <= t[2],
        drawn_from(s, t),
    ensures
        exists|p: int, q: int, r: int|
            0 <= p < q < r < s.len() && s[p] == t[0] && s[q] == t[1] && s[r] == t[2],
{
    let x = t[0];
    let y = t[1];
    let z = t[2];
    assert(t =~= seq![x, y, z]);
    lemma_count_triple(x, y, z, x);
    lemma_count_triple(x, y, z, y);
    lemma_count_triple(x, y, z, z);
    if x == y && y == z {
        assert(count_val(s, x) >= 3);
        lemma_three_indices_of_count(s, x);
        let (p, q, r) = choose|p: int, q: int, r: int|
            0 <= p < q < r < s.len() && s[p] == x && s[q] == x && s[r] == x;
        assert(s[p] == x && s[q] == y && s[r] == z);
    } else if x == y {
        assert(count_val(s, x) >= 2 && count_val(s, z) >= 1);
        lemma_two_indices_of_count(s, x);
        lemma_index_of_count(s, z);
        let (p, q) = choose|p: int, q: int| 0 <= p < q < s.len() && s[p] == x && s[q] == x;
        let r = choose|r: int| 0 <= r < s.len() && s[r] == z;
        assert(q < r) by {
            if r <= q {
                assert(s[r] <= s[q]);
            }
        }
        assert(s[p] == x && s[q] == y && s[r] == z);
    } else if y == z {
        assert(count_val(s, y) >= 2 && count_val(s, x) >= 1);
        lemma_two_indices_of_count(s, y);
        lemma_index_of_count(s, x);
        let (q, r) = choose|q: int, r: int| 0 <= q < r < s.len() && s[q] == y && s[r] == y;
        let p = choose|p: int| 0 <= p < s.len() && s[p] == x;
        assert(p < q) by {
            if q <= p {
                assert(s[q] <= s[p]);
            }
        }
        assert(s[p] == x && s[q] == y && s[r] == z);
    } else {
        assert(count_val(s, x) >= 1 && count_val(s, y) >= 1 && count_val(s, z) >= 1);
        lemma_index_of_count(s, x);
        lemma_index_of_count(s, y);
        lemma_index_of_count(s, z);
        let p = choose|p: int| 0 <= p < s.len() && s[p] == x;
        let q = choose|q: int| 0 <= q < s.len() && s[q] == y;
        let r = choose|r: int| 0 <= r < s.len() && s[r] == z;
        assert(p < q) by {
            if q <= p {
                assert(s[q] <= s[p]);
            }
        }
        assert(q < r) by {
            if r <= q {
                assert(s[r] <= s[q]);
            }
        }
        assert(s[p] == x && s[q] == y && s[r] == z);
    }
}

/// Inserting one element raises exactly that value's count by one.
proof fn lemma_count_insert(s: Seq<i32>, i: int, x: i32, v: i32)
    requires
        0 <= i <= s.len(),
    ensures
        count_val(s.insert(i, x), v) as int == count_val(s, v) as int + if x == v {
            1int
        } else {
            0int
        },
    decreases s.len(),
{
    let t = s.insert(i, x);
    if i == s.len() {
        assert(t.drop_last() =~= s);
        assert(t.last() == x);
    } else {
        assert(t.drop_last() =~= s.drop_last().insert(i, x));
        assert(t.last() == s.last());
        lemma_count_insert(s.drop_last(), i, x, v);
    }
}

/// Sorted copy of `nums` holding exactly the same values with the same
/// multiplicities.
fn sorted_copy(nums: &Vec<i32>) -> (r: Vec<i32>)
    ensures
        sorted(r@),
        r@.len() == nums@.len(),
        forall|v: i32| #[trigger] count_val(r@, v) == count_val(nums@, v),
{
    let mut r: Vec<i32> = Vec::new();
    let mut pos: usize = 0;
    while pos < nums.len()
        invariant
            pos <= nums@.len(),
            r@.len() == pos,
            sorted(r@),
            forall|v: i32| #[trigger] count_val(r@, v) == count_val(nums@.take(pos as int), v),
        decreases nums@.len() - pos,
    {
        let x = nums[pos];
        let mut ins: usize = 0;
        while ins < r.len() && r[ins] <= x
            invariant
                ins <= r@.len(),
                forall|m: int| 0 <= m < ins ==> #[trigger] r@[m] <= x,
            decreases r@.len() - ins,
        {
            ins = ins + 1;
        }
        let ghost before = r@;
        r.insert(ins, x);
        proof {
            assert forall|a: int, b: int| 0 <= a <= b < r@.len() implies #[trigger] r@[a]
                <= #[trigger] r@[b] by {
                if a < ins && b >= ins + 1 {
                    assert(before[a] <= x);
                    if ins < before.len() {
                        assert(x < before[ins as int]);
                    }
                } else if a == ins && b > ins {
                    assert(x < before[ins as int]);
                } else if a < ins && b == ins {
                    assert(before[a] <= x);
                }
            }
            assert forall|v: i32| #[trigger] count_val(r@, v) == count_val(
                nums@.take(pos + 1),
                v,
            ) by {
                lemma_count_insert(before, ins as int, x, v);
                assert(nums@.take(pos + 1).drop_last() =~= nums@.take(pos as int));
                assert(nums@.take(pos + 1).last() == nums@[pos as int]);
            }
        }
        pos = pos + 1;
    }
    proof {
        assert(nums@.take(nums@.len() as int) =~= nums@);
    }
    r
}


impl Solution {
    /// Every distinct sorted triplet of values that can be drawn from the
    /// input and sums to zero, each exactly once. Inputs with fewer than
    /// three elements yield an empty collection. The order of the triplets
    /// in the result is not part of the contract.
    pub fn three_sum(nums: Vec<i32>) -> (r: Vec<Vec<i32>>)
        ensures
            forall|idx: int| 0 <= idx < r@.len() ==> is_zero_triplet(nums@, #[trigger] r@[idx]@),
            forall|t: Seq<i32>| #[trigger] is_zero_triplet(nums@, t) ==> recorded(r@, t),
            forall|idx1: int, idx2: int|
                #![trigger r@[idx1], r@[idx2]]
                0 <= idx1 < idx2 < r@.len() ==> r@[idx1]@ != r@[idx2]@,
    {
        let a = sorted_copy(&nums);
        let n = a.len();
        let mut result: Vec<Vec<i32>> = Vec::new();

        if n < 3 {
            proof {
                assert forall|t: Seq<i32>| #[trigger] is_zero_triplet(nums@, t) implies recorded(
                    result@,
                    t,
                ) by {
                    assert forall|v: i32| #[trigger] count_val(t, v) <= count_val(a@, v) by {
                        assert(count_val(a@, v) == count_val(nums@, v));
                    }
                    lemma_sorted_triplet_has_indices(a@, t);
                }
            }
            return result;
        }

        let mut i: usize = 0;
        while i < n - 2 && a[i] <= 0
            invariant
                sorted(a@),
                a@.len() == n == nums@.len(),
                n >= 3,
                forall|v: i32| #[trigger] count_val(a@, v) == count_val(nums@, v),
                i <= n - 2,
                forall|idx: int|
                    0 <= idx < result@.len() ==> is_zero_triplet(a@, #[trigger] result@[idx]@),
                forall|p: int, q: int, rr: int|
                    #![trigger a@[p], a@[q], a@[rr]]
                    0 <= p < q < rr < n && p < i && a@[p] + a@[q] + a@[rr] == 0 ==> recorded(
                        result@,
                        seq![a@[p], a@[q], a@[rr]],
                    ),
                forall|idx1: int, idx2: int|
                    #![trigger result@[idx1], result@[idx2]]
                    0 <= idx1 < idx2 < result@.len() ==> result@[idx1]@ != result@[idx2]@,
                forall|idx: int|
                    0 <= idx < result@.len() ==> i > 0 && #[trigger] result@[idx]@[0] <= a@[i - 1],
            decreases n - i,
        {
            if i == 0 || a[i] != a[i - 1] {
                let mut left: usize = i + 1;
                let mut right: usize = n - 1;
                while left < right
                    invariant
                        sorted(a@),
                        a@.len() == n,
                        n >= 3,
                        i < n - 2,
                        i == 0 || a@[i - 1] != a@[i as int],
                        i + 1 <= left <= n,
                        i < right <= n - 1,
                        left <= right + 2,
                        forall|idx: int|
                            0 <= idx < result@.len() ==> is_zero_triplet(
                                a@,
                                #[trigger] result@[idx]@,
                            ),
                        forall|p: int, q: int, rr: int|
                            #![trigger a@[p], a@[q], a@[rr]]
                            0 <= p < q < rr < n && a@[p] + a@[q] + a@[rr] == 0 && (p < i || (p == i
                                && (q < left || rr > right))) ==> recorded(
                                result@,
                                seq![a@[p], a@[q], a@[rr]],
                            ),
                        forall|idx1: int, idx2: int|
                            #![trigger result@[idx1], result@[idx2]]
                            0 <= idx1 < idx2 < result@.len() ==> result@[idx1]@ != result@[idx2]@,
                        forall|idx: int|
                            0 <= idx < result@.len() ==> #[trigger] result@[idx]@[0] <= a@[i as int],
                        forall|idx: int|
                            #![trigger result@[idx]]
                            0 <= idx < result@.len() && result@[idx]@[0] == a@[i as int] && left
                                < right ==> result@[idx]@[1] < a@[left as int],
                    decreases right + 2 - left,
                {
                    let sum: i64 = a[i] as i64 + a[left] as i64 + a[right] as i64;
                    if sum < 0 {
                        proof {
                            assert forall|rr: int|
                                left < rr <= right implies a@[i as int] + a@[left as int] + a@[rr]
                                != 0 by {
                                assert(a@[rr] <= a@[right as int]);
                            }
                        }
                        left = left + 1;
                    } else if sum > 0 {
                        proof {
                            assert forall|q: int|
                                left <= q < right implies a@[i as int] + a@[q] + a@[right as int]
                                != 0 by {
                                assert(a@[left as int] <= a@[q]);
                            }
                        }
                        right = right - 1;
                    } else {
                        let ghost old_result = result@;
                        let ghost old_left = left as int;
                        let ghost old_right = right as int;
                        let ghost pushed = seq![a@[i as int], a@[old_left], a@[old_right]];

                        let mut triple: Vec<i32> = Vec::new();
                        triple.push(a[i]);
                        triple.push(a[left]);
                        triple.push(a[right]);
                        proof {
                            assert(triple@ =~= pushed);
                            lemma_indices_give_triplet(a@, i as int, old_left, old_right);
                            assert(is_zero_triplet(a@, pushed));
                        }
                        result.push(triple);
                        proof {
                            assert(result@[result@.len() - 1]@ == pushed);
                            assert forall|t: Seq<i32>| #[trigger] recorded(old_result, t) implies
                                recorded(result@, t) by {
                                let idx = choose|idx: int|
                                    0 <= idx < old_result.len() && #[trigger] old_result[idx]@ == t;
                                assert(result@[idx]@ == t);
                            }
                            assert forall|idx: int| 0 <= idx < old_result.len() implies result@[idx]@
                                != pushed by {
                                if old_result[idx]@[0] == a@[i as int] {
                                    assert(old_result[idx]@[1] < a@[old_left]);
                                } else {
                                    assert(old_result[idx]@[0] <= a@[i as int]);
                                }
                            }
                        }

                        while left < right && a[left] == a[left + 1]
                            invariant
                                sorted(a@),
                                a@.len() == n,
                                n >= 3,
                                i < n - 2,
                                i == 0 || a@[i - 1] != a@[i as int],
                                old_left <= left <= right,
                                right == old_right,
                                i < old_left,
                                old_right <= n - 1,
                                forall|m: int|
                                    old_left <= m <= left ==> #[trigger] a@[m] == a@[old_left],
                                a@[i as int] + a@[old_left] + a@[old_right] == 0,
                                recorded(result@, pushed),
                                pushed == seq![a@[i as int], a@[old_left], a@[old_right]],
                                forall|idx: int|
                                    0 <= idx < result@.len() ==> is_zero_triplet(
                                        a@,
                                        #[trigger] result@[idx]@,
                                    ),
                                forall|p: int, q: int, rr: int|
                                    #![trigger a@[p], a@[q], a@[rr]]
                                    0 <= p < q < rr < n && a@[p] + a@[q] + a@[rr] == 0 && (p < i || (
                                    p == i && (q < left || rr > right))) ==> recorded(
                                        result@,
                                        seq![a@[p], a@[q], a@[rr]],
                                    ),
                                forall|idx1: int, idx2: int|
                                    #![trigger result@[idx1], result@[idx2]]
                                    0 <= idx1 < idx2 < result@.len() ==> result@[idx1]@
                                        != result@[idx2]@,
                                forall|idx: int|
                                    0 <= idx < result@.len() ==> #[trigger] result@[idx]@[0]
                                        <= a@[i as int],
                                forall|idx: int|
                                    #![trigger result@[idx]]
                                    0 <= idx < result@.len() - 1 && result@[idx]@[0] == a@[i as int]
                                        ==> result@[idx]@[1] < a@[old_left],
                                result@[result@.len() - 1]@ == pushed,
                            decreases right - left,
                        {
                            proof {
                                assert forall|rr: int|
                                    #![trigger a@[rr]]
                                    left + 1 < rr <= right && a@[i as int] + a@[left + 1] + a@[rr]
                                        == 0 implies recorded(
                                    result@,
                                    seq![a@[i as int], a@[left + 1], a@[rr]],
                                ) by {
                                    assert(a@[left + 1] == a@[old_left]);
                                    assert(a@[rr] == a@[old_right]);
                                    assert(seq![a@[i as int], a@[left + 1], a@[rr]] =~= pushed);
                                }
                            }
                            left = left + 1;
                        }
                        let ghost left_s = left as int;

                        while left < right && a[right] == a[right - 1]
                            invariant
                                sorted(a@),
                                a@.len() == n,
                                n >= 3,
                                i < n - 2,
                                i == 0 || a@[i - 1] != a@[i as int],
                                left == left_s,
                                old_left <= left_s <= right,
                                right <= old_right <= n - 1,
                                i < old_left,
                                forall|m: int|
                                    old_left <= m <= left_s ==> #[trigger] a@[m] == a@[old_left],
                                forall|m: int|
                                    right <= m <= old_right ==> #[trigger] a@[m] == a@[old_right],
                                a@[i as int] + a@[old_left] + a@[old_right] == 0,
                                recorded(result@, pushed),
                                pushed == seq![a@[i as int], a@[old_left], a@[old_right]],
                                left_s == right || a@[left_s] != a@[left_s + 1],
                                forall|idx: int|
                                    0 <= idx < result@.len() ==> is_zero_triplet(
                                        a@,
                                        #[trigger] result@[idx]@,
                                    ),
                                forall|p: int, q: int, rr: int|
                                    #![trigger a@[p], a@[q], a@[rr]]
                                    0 <= p < q < rr < n && a@[p] + a@[q] + a@[rr] == 0 && (p < i || (
                                    p == i && (q < left || rr > right))) ==> recorded(
                                        result@,
                                        seq![a@[p], a@[q], a@[rr]],
                                    ),
                                forall|idx1: int, idx2: int|
                                    #![trigger result@[idx1], result@[idx2]]
                                    0 <= idx1 < idx2 < result@.len() ==> result@[idx1]@
                                        != result@[idx2]@,
                                forall|idx: int|
                                    0 <= idx < result@.len() ==> #[trigger] result@[idx]@[0]
                                        <= a@[i as int],
                                forall|idx: int|
                                    #![trigger result@[idx]]
                                    0 <= idx < result@.len() - 1 && result@[idx]@[0] == a@[i as int]
                                        ==> result@[idx]@[1] < a@[old_left],
                                result@[result@.len() - 1]@ == pushed,
                            decreases right - left,
                        {
                            proof {
                                assert forall|q: int|
                                    #![trigger a@[q]]
                                    i < q < right - 1 && a@[i as int] + a@[q] + a@[right - 1] == 0
                                        implies recorded(
                                    result@,
                                    seq![a@[i as int], a@[q], a@[right - 1]],
                                ) by {
                                    assert(a@[right - 1] == a@[old_right]);
                                    assert(a@[q] == a@[old_left]);
                                    assert(seq![a@[i as int], a@[q], a@[right - 1]] =~= pushed);
                                }
                            }
                            right = right - 1;
                        }
                        let ghost right_s = right as int;

                        proof {
                            assert forall|p: int, q: int, rr: int|
                                #![trigger a@[p], a@[q], a@[rr]]
                                0 <= p < q < rr < n && a@[p] + a@[q] + a@[rr] == 0 && (p < i || (p
                                    == i && (q < left_s + 1 || rr > right_s - 1))) implies recorded(
                                result@,
                                seq![a@[p], a@[q], a@[rr]],
                            ) by {
                                if p == i && !(q < left_s || rr > right_s) {
                                    if q == left_s {
                                        assert(a@[q] == a@[old_left]);
                                        assert(a@[rr] == a@[old_right]);
                                        assert(seq![a@[p], a@[q], a@[rr]] =~= pushed);
                                    } else {
                                        assert(rr == right_s);
                                        assert(a@[rr] == a@[old_right]);
                                        assert(a@[q] == a@[old_left]);
                                        assert(seq![a@[p], a@[q], a@[rr]] =~= pushed);
                                    }
                                }
                            }
                        }
                        left = left + 1;
                        right = right - 1;
                        proof {
                            if left < right {
                                assert(left_s < right_s);
                                assert(a@[left_s] != a@[left_s + 1]);
                                assert(a@[left as int] > a@[left_s]);
                                assert forall|idx: int|
                                    #![trigger result@[idx]]
                                    0 <= idx < result@.len() && result@[idx]@[0] == a@[i as int]
                                        implies result@[idx]@[1] < a@[left as int] by {
                                    if idx < result@.len() - 1 {
                                        assert(result@[idx]@[1] < a@[old_left]);
                                        assert(a@[old_left] <= a@[left_s]);
                                    } else {
                                        assert(result@[idx]@ == pushed);
                                        assert(result@[idx]@[1] == a@[old_left]);
                                    }
                                }
                            }
                        }
                    }
                }
                proof {
                    assert forall|p: int, q: int, rr: int|
                        #![trigger a@[p], a@[q], a@[rr]]
                        0 <= p < q < rr < n && p < i + 1 && a@[p] + a@[q] + a@[rr] == 0 implies
                        recorded(result@, seq![a@[p], a@[q], a@[rr]]) by {
                        if p == i {
                            assert(q < left || rr > right) by {
                                if q >= left && rr <= right {
                                    assert(left < right);
                                }
                            }
                        }
                    }
                }
            } else {
                proof {
                    assert forall|p: int, q: int, rr: int|
                        #![trigger a@[p], a@[q], a@[rr]]
                        0 <= p < q < rr < n && p < i + 1 && a@[p] + a@[q] + a@[rr] == 0 implies
                        recorded(result@, seq![a@[p], a@[q], a@[rr]]) by {
                        if p == i {
                            assert(a@[i - 1] == a@[i as int]);
                            assert(a@[i - 1] + a@[q] + a@[rr] == 0);
                            assert(recorded(result@, seq![a@[i - 1], a@[q], a@[rr]]));
                            assert(seq![a@[i - 1], a@[q], a@[rr]] =~= seq![a@[p], a@[q], a@[rr]]);
                        }
                    }
                }
            }
            i = i + 1;
        }

        proof {
            let i_end = i as int;
            assert forall|idx: int| 0 <= idx < result@.len() implies is_zero_triplet(
                nums@,
                #[trigger] result@[idx]@,
            ) by {
                assert(is_zero_triplet(a@, result@[idx]@));
                let t = result@[idx]@;
                assert forall|v: i32| #[trigger] count_val(t, v) <= count_val(nums@, v) by {
                    assert(count_val(t, v) <= count_val(a@, v));
                    assert(count_val(a@, v) == count_val(nums@, v));
                }
            }
            assert forall|t: Seq<i32>| #[trigger] is_zero_triplet(nums@, t) implies recorded(
                result@,
                t,
            ) by {
                assert forall|v: i32| #[trigger] count_val(t, v) <= count_val(a@, v) by {
                    assert(count_val(a@, v) == count_val(nums@, v));
                }
                lemma_sorted_triplet_has_indices(a@, t);
                let (p, q, rr) = choose|p: int, q: int, rr: int|
                    0 <= p < q < rr < a@.len() && a@[p] == t[0] && a@[q] == t[1] && a@[rr] == t[2];
                assert(a@[p] + a@[q] + a@[rr] == 0);
                if p >= i_end {
                    assert(i_end >= n - 2 || a@[i_end] > 0);
                    if i_end >= n - 2 {
                        assert(rr >= n);
                    } else {
                        assert(a@[p] >= a@[i_end]);
                        assert(t[0] + t[1] + t[2] > 0);
                    }
                }
                assert(p < i_end);
                assert(recorded(result@, seq![a@[p], a@[q], a@[rr]]));
                assert(seq![a@[p], a@[q], a@[rr]] =~= t);
            }
        }
        result
    }
}

} // verus!
