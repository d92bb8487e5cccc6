use tko::text_style::{from_ansi_codes, parse, TextStyleSource};

#[test]
fn style_parse_keeps_last_colours() {
    let s = parse("rgB*_".to_string());
    assert_eq!(s.to_tag(), "gB*_");
}

#[test]
fn style_default_colours_are_none() {
    let s = parse("dD*".to_string());
    assert_eq!(s.to_tag(), "*");
    assert!(!s.is_plain());
    assert!(parse(String::new()).is_plain());
}

#[test]
fn style_ansi_codes() {
    assert_eq!(parse("r*".to_string()).ansi(), "\x1b[31;1m");
    assert_eq!(parse("yK_!".to_string()).ansi(), "\x1b[33;40;9;4m");
    assert_eq!(parse(String::new()).ansi(), "");
}

#[test]
fn style_from_codes() {
    let codes = vec!["31".to_string(), "1".to_string()];
    assert_eq!(from_ansi_codes(codes, None).to_tag(), "r*");
    let reset = vec!["31".to_string(), "0".to_string(), "44".to_string()];
    assert_eq!(from_ansi_codes(reset, None).to_tag(), "B");
    let unknown = vec!["99".to_string(), "7".to_string()];
    assert_eq!(from_ansi_codes(unknown, None).to_tag(), "X");
}

#[test]
fn style_from_empty_code_is_default_foreground() {
    let s = from_ansi_codes(vec![String::new()], None);
    assert_eq!(s.to_tag(), "d");
    assert_eq!(s.ansi(), "\x1b[m");
}

#[test]
fn style_from_codes_with_base() {
    let base = parse("g*".to_string());
    let s = from_ansi_codes(vec!["4".to_string()], Some(&base));
    assert_eq!(s.to_tag(), "g*_");
}

#[test]
fn style_overlay_and_clear() {
    let s = parse("r*".to_string());
    let o = s.overlay(TextStyleSource::Text("B_".to_string()));
    assert_eq!(o.to_tag(), "rB*_");
    let o2 = s.overlay(TextStyleSource::Style(parse("g".to_string())));
    assert_eq!(o2.to_tag(), "g*");
    assert_eq!(s.clear_attrs().to_tag(), "r");
}

#[test]
fn style_tag_reads_back() {
    for text in ["rB*_!", "k", "WX", "*/"] {
        let s = parse(text.to_string());
        let again = parse(s.to_tag());
        assert_eq!(again.to_tag(), s.to_tag());
    }
}
