use dsa::Solution;

fn normalized(mut triplets: Vec<Vec<i32>>) -> Vec<Vec<i32>> {
    for t in triplets.iter_mut() {
        t.sort_unstable();
    }
    triplets.sort_unstable();
    triplets
}

#[test]
fn max_profit_examples() {
    assert_eq!(Solution::max_profit(vec![7, 1, 5, 3, 6, 4]), 5);
    assert_eq!(Solution::max_profit(vec![7, 6, 4, 3, 1]), 0);
    assert_eq!(Solution::max_profit(vec![1, 2, 3, 4, 5]), 4);
    assert_eq!(Solution::max_profit(vec![3, 2, 6, 5, 0, 3]), 4);
}

#[test]
fn max_profit_edges() {
    assert_eq!(Solution::max_profit(vec![]), 0);
    assert_eq!(Solution::max_profit(vec![5]), 0);
    assert_eq!(Solution::max_profit(vec![2, 1]), 0);
    assert_eq!(Solution::max_profit(vec![1, 2]), 1);
    assert_eq!(Solution::max_profit(vec![1, 1, 1, 1]), 0);
}

#[test]
fn contains_duplicate_examples() {
    assert!(Solution::contains_duplicate(vec![1, 2, 3, 1]));
    assert!(!Solution::contains_duplicate(vec![1, 2, 3, 4]));
    assert!(Solution::contains_duplicate(vec![1, 1, 1, 3, 3, 4, 3, 2, 4, 2]));
}

#[test]
fn contains_duplicate_edges() {
    assert!(!Solution::contains_duplicate(vec![]));
    assert!(!Solution::contains_duplicate(vec![7]));
    assert!(Solution::contains_duplicate(vec![7, 7]));
}

#[test]
fn contains_duplicate_matches_distinct_count() {
    let cases: Vec<Vec<i32>> = vec![
        vec![],
        vec![4],
        vec![1, 2, 3, 1],
        vec![1, 2, 3, 4],
        vec![5, 5, 5],
    ];
    for nums in cases {
        let mut distinct = nums.clone();
        distinct.sort_unstable();
        distinct.dedup();
        let expected = distinct.len() < nums.len();
        assert_eq!(Solution::contains_duplicate(nums), expected);
    }
}

#[test]
fn max_sub_array_examples() {
    assert_eq!(Solution::max_sub_array(vec![-2, 1, -3, 4, -1, 2, 1, -5, 4]), 6);
    assert_eq!(Solution::max_sub_array(vec![1]), 1);
    assert_eq!(Solution::max_sub_array(vec![5, 4, -1, 7, 8]), 23);
}

#[test]
fn max_sub_array_all_negative() {
    assert_eq!(Solution::max_sub_array(vec![-1, -2, -3]), -1);
    assert_eq!(Solution::max_sub_array(vec![-8, -3, -6, -2, -5, -4]), -2);
}

#[test]
fn max_sub_array_empty() {
    assert_eq!(Solution::max_sub_array(vec![]), 0);
}

#[test]
fn max_sub_array_at_least_best_element() {
    let cases: Vec<Vec<i32>> = vec![
        vec![-2, 1, -3, 4, -1, 2, 1, -5, 4],
        vec![-1, -2, -3],
        vec![10],
        vec![3, -9, 8],
    ];
    for nums in cases {
        let best_single = *nums.iter().max().unwrap();
        assert!(Solution::max_sub_array(nums) >= best_single);
    }
}

#[test]
fn plus_one_examples() {
    assert_eq!(Solution::plus_one(vec![9, 9, 9]), vec![1, 0, 0, 0]);
    assert_eq!(Solution::plus_one(vec![1, 2, 3]), vec![1, 2, 4]);
}

#[test]
fn plus_one_carries() {
    assert_eq!(Solution::plus_one(vec![0]), vec![1]);
    assert_eq!(Solution::plus_one(vec![9]), vec![1, 0]);
    assert_eq!(Solution::plus_one(vec![1, 9, 9]), vec![2, 0, 0]);
    assert_eq!(Solution::plus_one(vec![4, 3, 2, 1]), vec![4, 3, 2, 2]);
}

#[test]
fn product_except_self_examples() {
    assert_eq!(Solution::product_except_self(vec![1, 2, 3]), vec![6, 3, 2]);
    assert_eq!(Solution::product_except_self(vec![1, 2, 3, 4]), vec![24, 12, 8, 6]);
}

#[test]
fn product_except_self_with_zeros() {
    assert_eq!(Solution::product_except_self(vec![-1, 1, 0, -3, 3]), vec![0, 0, 9, 0, 0]);
    assert_eq!(Solution::product_except_self(vec![0, 0]), vec![0, 0]);
}

#[test]
fn product_except_self_single() {
    assert_eq!(Solution::product_except_self(vec![8]), vec![1]);
}

#[test]
fn product_except_self_matches_quotient() {
    let nums = vec![2, -3, 4, 5];
    let whole: i32 = nums.iter().product();
    let out = Solution::product_except_self(nums.clone());
    for (i, &value) in nums.iter().enumerate() {
        assert_eq!(out[i], whole / value);
    }
}

#[test]
fn rotate_examples() {
    let mut nums = vec![1, 2, 3, 4, 5, 6, 7];
    Solution::rotate(&mut nums, 3);
    assert_eq!(nums, vec![5, 6, 7, 1, 2, 3, 4]);

    let mut nums = vec![-1, -100, 3, 99];
    Solution::rotate(&mut nums, 2);
    assert_eq!(nums, vec![3, 99, -1, -100]);
}

#[test]
fn rotate_edges() {
    let mut nums: Vec<i32> = vec![];
    Solution::rotate(&mut nums, 5);
    assert_eq!(nums, Vec::<i32>::new());

    let mut nums = vec![1];
    Solution::rotate(&mut nums, 10);
    assert_eq!(nums, vec![1]);

    let mut nums = vec![1, 2];
    Solution::rotate(&mut nums, 0);
    assert_eq!(nums, vec![1, 2]);

    let mut nums = vec![1, 2, 3];
    Solution::rotate(&mut nums, 4);
    assert_eq!(nums, vec![3, 1, 2]);
}

#[test]
fn rotate_round_trip() {
    let original = vec![4, -2, 9, 9, 0, 1];
    let n = original.len() as i32;
    for k in 0..10 {
        let mut nums = original.clone();
        Solution::rotate(&mut nums, k);
        Solution::rotate(&mut nums, n - k % n);
        assert_eq!(nums, original);
    }
}

#[test]
fn two_sum_examples() {
    assert_eq!(Solution::two_sum(vec![11, 15, 2, 7], 9), vec![2, 3]);
    assert_eq!(Solution::two_sum(vec![2, 7, 11, 15], 9), vec![0, 1]);
    assert_eq!(Solution::two_sum(vec![3, 2, 4], 6), vec![1, 2]);
    assert_eq!(Solution::two_sum(vec![3, 3], 6), vec![0, 1]);
}

#[test]
fn two_sum_no_pair() {
    assert_eq!(Solution::two_sum(vec![], 5), Vec::<i32>::new());
    assert_eq!(Solution::two_sum(vec![1, 2, 3], 100), Vec::<i32>::new());
}

#[test]
fn two_sum_keeps_earliest_complement() {
    assert_eq!(Solution::two_sum(vec![3, 3, 4], 7), vec![0, 2]);
}

#[test]
fn three_sum_examples() {
    assert_eq!(
        normalized(Solution::three_sum(vec![-1, 0, 1, 2, -1, -4])),
        vec![vec![-1, -1, 2], vec![-1, 0, 1]]
    );
    assert_eq!(normalized(Solution::three_sum(vec![0, 0, 0, 0])), vec![vec![0, 0, 0]]);
    assert_eq!(normalized(Solution::three_sum(vec![0, 0, 0])), vec![vec![0, 0, 0]]);
}

#[test]
fn three_sum_too_short() {
    assert_eq!(Solution::three_sum(vec![]), Vec::<Vec<i32>>::new());
    assert_eq!(Solution::three_sum(vec![1, 2]), Vec::<Vec<i32>>::new());
}

#[test]
fn three_sum_no_match() {
    assert_eq!(Solution::three_sum(vec![0, 1, 1]), Vec::<Vec<i32>>::new());
    assert_eq!(Solution::three_sum(vec![1, 2, -2, -1]), Vec::<Vec<i32>>::new());
}

#[test]
fn three_sum_deduplicates() {
    assert_eq!(
        normalized(Solution::three_sum(vec![-2, 0, 1, 1, 2])),
        vec![vec![-2, 0, 2], vec![-2, 1, 1]]
    );
    assert_eq!(normalized(Solution::three_sum(vec![-1, 0, 1, 0])), vec![vec![-1, 0, 1]]);
}
