use tko::text::{AddValue, AnsiColor, Text, Token};

#[test]
fn colour_wraps_text() {
    assert_eq!(AnsiColor::colour("r*", "hi"), "\x1b[31m\x1b[1mhi\x1b[0m");
    assert_eq!(AnsiColor::colour("", "hi"), "hi");
    assert_eq!(AnsiColor::colour_if(false, "r", "hi"), "hi");
    assert_eq!(AnsiColor::get('?'), "");
}

#[test]
fn text_add_splits_characters() {
    let mut t = Text::new(None, None);
    t.add(Some(AddValue::Str("ab".to_string())));
    t.add(Some(AddValue::Token(Token::new("c".to_string(), "r".to_string()))));
    t.addf("g".to_string(), Some(AddValue::Str("d".to_string())));
    assert_eq!(t.get_str(), "abcd");
    assert_eq!(t.data.len(), 4);
    assert_eq!(t.data[2].fmt, "r");
    assert_eq!(t.data[3].fmt, "g");
    let mut u = Text::new(None, None);
    u.add(Some(AddValue::Text(t)));
    u.add(Some(AddValue::Tuple(("y".to_string(), "e".to_string()))));
    u.add(None);
    assert_eq!(u.get_str(), "abcde");
    assert_eq!(u.data[4].fmt, "y");
}
