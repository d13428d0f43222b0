use one_bit_llm::tokens::{convert_to_usize, vocabulary_size};

#[test]
fn decodes_big_endian_groups_of_four() {
    let ids = convert_to_usize(vec![0, 0, 1, 2, 0, 0, 0, 5, 1, 0, 0, 0]);
    assert_eq!(ids, vec![258, 5, 16777216]);
}

#[test]
fn ignores_trailing_bytes() {
    assert_eq!(convert_to_usize(vec![255, 255, 255, 255, 7, 7]), vec![4294967295]);
    assert!(convert_to_usize(vec![1, 2, 3]).is_empty());
}

#[test]
fn vocabulary_is_one_past_largest_id() {
    assert_eq!(vocabulary_size(&vec![3, 9, 0, 9, 2]), Some(10));
    assert_eq!(vocabulary_size(&vec![0]), Some(1));
}

#[test]
fn vocabulary_of_nothing_is_none() {
    assert_eq!(vocabulary_size(&vec![]), None);
    assert_eq!(vocabulary_size(&vec![1, usize::MAX]), None);
}
