use aoc2024::lists::{similarity_score, sum_distances, total_distance};

#[test]
fn sample_distance() {
    let left = vec![3, 4, 2, 1, 3, 3];
    let right = vec![4, 3, 5, 3, 9, 3];
    assert_eq!(total_distance(left, right), Some(11));
}

#[test]
fn distance_of_sorted_lists() {
    assert_eq!(sum_distances(&vec![1, 5, 9], &vec![2, 2, 9]), Some(4));
    assert_eq!(sum_distances(&vec![i32::MIN], &vec![i32::MAX]), Some(u32::MAX as u64));
    assert_eq!(sum_distances(&vec![1, 2, 3], &vec![1]), Some(0));
    assert_eq!(total_distance(vec![], vec![]), Some(0));
}

#[test]
fn sample_similarity() {
    let left = vec![3, 4, 2, 1, 3, 3];
    let right = vec![4, 3, 5, 3, 9, 3];
    assert_eq!(similarity_score(&left, &right), Some(31));
    assert_eq!(similarity_score(&vec![-2, 7], &vec![-2, -2, 1]), Some(-4));
}
