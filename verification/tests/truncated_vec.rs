use fuiz::TruncatedVec;

#[test]
fn test_truncated_vec_new() {
    let data = vec![1, 2, 3, 4, 5];
    let truncated = TruncatedVec::new(data.into_iter(), 3, 5);

    assert_eq!(truncated.exact_count(), 5);
    assert_eq!(truncated.items(), &[1, 2, 3]);
}

#[test]
fn test_truncated_vec_new_limit_larger_than_items() {
    let data = vec![1, 2, 3];
    let truncated = TruncatedVec::new(data.into_iter(), 5, 3);

    assert_eq!(truncated.exact_count(), 3);
    assert_eq!(truncated.items(), &[1, 2, 3]);
}

#[test]
fn test_truncated_vec_new_empty() {
    let data: Vec<i32> = vec![];
    let truncated = TruncatedVec::new(data.into_iter(), 5, 0);

    assert_eq!(truncated.exact_count(), 0);
    let empty: &[i32] = &[];
    assert_eq!(truncated.items(), empty);
}

#[test]
fn test_truncated_vec_map() {
    let data = vec![1, 2, 3];
    let truncated = TruncatedVec::new(data.into_iter(), 3, 5);
    let mapped = truncated.map(|x| x * 2);

    assert_eq!(mapped.exact_count(), 5);
    assert_eq!(mapped.items(), &[2, 4, 6]);
}

#[test]
fn test_truncated_vec_map_string() {
    let data = vec![1, 2, 3];
    let truncated = TruncatedVec::new(data.into_iter(), 2, 3);
    let mapped = truncated.map(|x| format!("item_{x}"));

    assert_eq!(mapped.exact_count(), 3);
    assert_eq!(mapped.items(), &["item_1", "item_2"]);
}
