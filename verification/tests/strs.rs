use tko::strs::{i32_to_string, parse_i32, parse_u32, text_lines};

#[test]
fn decimal_round_trip() {
    for n in [0, 7, -7, 100, i32::MAX, i32::MIN] {
        assert_eq!(parse_i32(&i32_to_string(n)), Some(n));
    }
}

#[test]
fn parse_numbers_as_std() {
    assert_eq!(parse_i32("+12"), Some(12));
    assert_eq!(parse_i32("-"), None);
    assert_eq!(parse_i32("12a"), None);
    assert_eq!(parse_i32("2147483648"), None);
    assert_eq!(parse_u32("007"), Some(7));
    assert_eq!(parse_u32("-1"), None);
}

#[test]
fn lines_as_std() {
    assert_eq!(text_lines("a\r\nb\n"), vec!["a".to_string(), "b".to_string()]);
    assert_eq!(text_lines("a\rb"), vec!["a\rb".to_string()]);
    assert_eq!(text_lines(""), Vec::<String>::new());
    assert_eq!(text_lines("\n\nx"), vec![String::new(), String::new(), "x".to_string()]);
}
