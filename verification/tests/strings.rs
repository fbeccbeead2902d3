use stef_parser::strings::{chars_of, string_of};

#[test]
fn characters_of_text() {
    assert_eq!(chars_of("héllo"), vec!['h', 'é', 'l', 'l', 'o']);
    assert_eq!(chars_of(""), Vec::<char>::new());
    let s = chars_of("a\u{1F600}bc");
    assert_eq!(string_of(&s, 1, 3), "\u{1F600}b");
    assert_eq!(string_of(&s, 2, 2), "");
}
