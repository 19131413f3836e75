use koi::kudo::merge::merge_sorted_iter;

#[test]
fn merge_sorted() {
    let nums = [0, 1, 5];
    let other_nums = [2, 3, 4, 8];

    let result = merge_sorted_iter(nums.len() + other_nums.len(), &nums, &other_nums);
    println!("RESULT: {:?}", result);
    assert_eq!(&result, &[0, 1, 2, 3, 4, 5, 8]);
}

#[test]
fn merge_keeps_duplicates_and_empty_sides() {
    assert_eq!(merge_sorted_iter(4, &[1, 3], &[1, 2]), vec![1, 1, 2, 3]);
    assert_eq!(merge_sorted_iter(0, &[], &[7, 9]), vec![7, 9]);
    assert_eq!(merge_sorted_iter(2, &[4, 6], &[]), vec![4, 6]);
    assert!(merge_sorted_iter(0, &[], &[]).is_empty());
}
