use marchiver::text::{
    cat2, cat3, cat4, cat5, characters, copy_optional, decimal, push_text, same_optional,
    same_text, signed_decimal,
};

#[test]
fn numbers_are_written_in_decimal() {
    for value in [0, 1, 9, 10, 99, 100, 12345, u32::MAX as u64, u64::MAX] {
        assert_eq!(decimal(value), value.to_string());
    }
    for value in [0, 1, -1, 42, -42, i64::MAX, i64::MIN] {
        assert_eq!(signed_decimal(value), value.to_string());
    }
}

#[test]
fn texts_are_joined_and_compared() {
    assert_eq!(cat2("a", "b"), "ab");
    assert_eq!(cat3("a", "", "c"), "ac");
    assert_eq!(cat4("a", "b", "c", "d"), "abcd");
    assert_eq!(cat5("\u{e9}", "b", "c", "d", "e"), "\u{e9}bcde");
    assert!(same_text("same", "same"));
    assert!(!same_text("same", "Same"));
    assert!(same_optional(&None, &None));
    assert!(same_optional(&Some("a".to_owned()), &Some("a".to_owned())));
    assert!(!same_optional(&Some("a".to_owned()), &None));
    assert_eq!(copy_optional(&Some("a".to_owned())).as_deref(), Some("a"));
    assert_eq!(characters("h\u{e9}\u{4e16}"), vec!['h', '\u{e9}', '\u{4e16}']);
    let mut list = vec!["a".to_owned()];
    push_text(&mut list, "b");
    assert_eq!(list, ["a", "b"]);
}
