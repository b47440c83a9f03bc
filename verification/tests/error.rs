use res_bot::error::InvalidValue;

#[test]
fn rejected_values_are_described_as_messages_show_them() {
    assert_eq!(InvalidValue::Number(42).describe(), "42");
    assert_eq!(InvalidValue::Number(0).describe(), "0");
    assert_eq!(InvalidValue::Range(1, 10).describe(), "1..=10");
    assert_eq!(InvalidValue::Text("abc".to_owned()).describe(), "abc");
    let fragments = InvalidValue::Fragments(vec!["Game".to_owned(), "a\"b".to_owned()]);
    assert_eq!(fragments.describe(), "[\"Game\", \"a\\\"b\"]");
    assert_eq!(InvalidValue::Fragments(Vec::new()).describe(), "[]");
}
