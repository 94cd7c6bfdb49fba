use rss_core::lists::reversed;

#[test]
fn reversed_turns_a_list_around() {
    assert_eq!(reversed(vec![1, 2, 3]), vec![3, 2, 1]);
    assert_eq!(reversed(vec!["a".to_string()]), vec!["a".to_string()]);
    assert_eq!(reversed(Vec::<u8>::new()), Vec::<u8>::new());
}
