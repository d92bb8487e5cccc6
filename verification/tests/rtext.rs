use tko::rtext::{normalize_style, RBuffer, RText, RenderMode};

#[test]
fn normalize_keeps_last_fg_bg() {
    assert_eq!(normalize_style("rg"), "g");
    assert_eq!(normalize_style("rg*"), "*g");
}

#[test]
fn plain_concatenation() {
    let a = RText::run("r", "Hello ");
    let b = RText::run("g", "World");
    assert_eq!((a + b).plain(), "Hello World");
}

#[test]
fn wrap_basic() {
    let t = RText::plain_text("Hello World");
    let lines = t.wrap(7);
    assert_eq!(lines[0].plain(), "Hello W");
    assert_eq!(lines[1].plain(), "orld");
}

#[test]
fn wrap_newline() {
    let t = RText::plain_text("foo\nbar");
    let lines = t.wrap(80);
    assert_eq!(lines.len(), 2);
    assert_eq!(lines[0].plain(), "foo");
    assert_eq!(lines[1].plain(), "bar");
}

#[test]
fn truncate_basic() {
    let t = RText::plain_text("Hello World");
    assert_eq!(t.truncate(5).plain(), "Hello");
}

#[test]
fn split_basic() {
    let t = RText::plain_text("a,b,c");
    let parts = t.split_text(",");
    assert_eq!(parts.len(), 3);
    assert_eq!(parts[1].plain(), "b");
}

#[test]
fn replace_basic() {
    let t = RText::plain_text("foo bar foo");
    let r = t.replace_text("foo", &RText::run("r", "baz"), None);
    assert_eq!(r.plain(), "baz bar baz");
}

#[test]
fn replace_count() {
    let t = RText::plain_text("aaa");
    let r = t.replace_text("a", &RText::plain_text("b"), Some(2));
    assert_eq!(r.plain(), "bba");
}

#[test]
fn slice_basic() {
    let t = RText::plain_text("Hello");
    assert_eq!(t.slice(1, 4).plain(), "ell");
}

#[test]
fn alignment() {
    let t = RText::plain_text("hi");
    let fill = RText::plain_text("-");
    assert_eq!(t.center(6, &fill).plain(), "--hi--");
    assert_eq!(t.ljust(5, &fill).plain(), "hi---");
    assert_eq!(t.rjust(5, &fill).plain(), "---hi");
}

#[test]
fn parse_template() {
    let result = RText::parse("[r]Hello [] World", &[RText::run("b", "Blue")]);
    assert_eq!(result.plain(), "Hello Blue World");
}

#[test]
fn parse_reset() {
    let result = RText::parse("[r]red[.]plain", &[]);
    assert_eq!(result.render(Some(RenderMode::Debug)), "[r]red[]plain");
}

#[test]
fn rbuffer_builds() {
    let mut buf = RBuffer::new();
    buf.add_str("Hello ", "r").add_str("World", "g");
    assert_eq!(buf.to_text().plain(), "Hello World");
}

#[test]
fn render_modes() {
    let t = RText::run("r", "hi");
    assert_eq!(t.render(Some(RenderMode::Debug)), "[r]hi");
    assert_eq!(t.render(Some(RenderMode::Plain)), "hi");
    assert!(t.render(Some(RenderMode::Ansi)).contains("\x1b[31m"));
}

#[test]
fn style_ops() {
    let t = RText::run("r", "hi");
    assert_eq!(t.set_style("g").render(Some(RenderMode::Debug)), "[g]hi");
    assert_eq!(t.clear_style().render(Some(RenderMode::Debug)), "[]hi");
    assert_eq!(t.add_style("*").render(Some(RenderMode::Debug)), "[*r]hi");
}

#[test]
fn repeat() {
    let t = RText::run("r", "ab");
    assert_eq!(t.repeat(3).plain(), "ababab");
}

#[test]
fn upper_lower() {
    let t = RText::plain_text("Hello");
    assert_eq!(t.to_upper().plain(), "HELLO");
    assert_eq!(t.to_lower().plain(), "hello");
}

#[test]
fn split_then_join_gives_back_text() {
    let t = RText::parse("[r]a,b[g],,c", &[]);
    let parts = t.split_text(",");
    assert_eq!(parts.len(), 4);
    let back = RText::join(parts, &RText::plain_text(","));
    assert_eq!(back.plain(), t.plain());
}

#[test]
fn wrap_lines_fit_and_keep_characters() {
    let t = RText::parse("ab\ncd[r]ef\n\ng", &[]);
    let lines = t.wrap(3);
    let plain: Vec<String> = lines.iter().map(|l| l.plain()).collect();
    assert_eq!(plain, vec!["ab", "cde", "f", "g"]);
    for l in &lines {
        assert!(l.width() <= 3 && l.char_len() > 0);
    }
    let wide = RText::plain_text("日本").wrap(1);
    assert_eq!(wide.iter().map(|l| l.plain()).collect::<Vec<_>>(), vec!["日", "本"]);
}

#[test]
fn truncate_keeps_longest_fitting_prefix() {
    let t = RText::plain_text("日本語");
    assert_eq!(t.truncate(5).plain(), "日本");
    assert_eq!(t.truncate(5).width(), 4);
    assert_eq!(t.truncate(6).plain(), "日本語");
    assert_eq!(t.truncate(1).plain(), "");
}

#[test]
fn parse_without_brackets_is_plain() {
    let t = RText::parse("no tags here", &[RText::run("r", "unused")]);
    assert_eq!(t.plain(), "no tags here");
    assert_eq!(t.runs().len(), 1);
    assert_eq!(t.runs()[0].0, "");
}

#[test]
fn append_and_join_identities() {
    let a = RText::parse("[r]ab[g]c", &[]);
    let e = RText::new();
    assert_eq!(a.append(&e).runs(), a.runs());
    assert_eq!(e.append(&a).runs(), a.runs());
    assert_eq!(RText::join(vec![a.duplicate()], &RText::plain_text(",")).runs(), a.runs());
    assert!(RText::join(vec![], &RText::plain_text(",")).is_empty());
    assert_eq!(a.set_style("g").render(Some(RenderMode::Debug)), "[g]abc");
    assert_eq!(RText::parse("[r]red[.]plain", &[]).render(Some(RenderMode::Debug)), "[r]red[]plain");
}

#[test]
fn split_parts_hold_no_separator() {
    let t = RText::parse("ab[r]aba[g]bab", &[]);
    let parts = t.split_text("aba");
    for p in &parts {
        assert!(!p.plain().contains("aba"));
    }
    let back = RText::join(parts, &RText::plain_text("aba"));
    assert_eq!(back.plain(), t.plain());
}

#[test]
fn from_runs_keeps_plain_text() {
    let t = RText::from_runs(vec![
        ("r".to_string(), "ab".to_string()),
        ("".to_string(), "".to_string()),
        ("rr".to_string(), "c".to_string()),
        ("g".to_string(), "d".to_string()),
    ]);
    assert_eq!(t.plain(), "abcd");
    assert_eq!(t.runs().len(), 2);
    assert_eq!(t.runs()[0], ("r".to_string(), "abc".to_string()));
}

#[test]
fn join_plain_is_string_join() {
    let parts = vec![RText::run("r", "a"), RText::new(), RText::run("g", "bc")];
    let plains: Vec<String> = parts.iter().map(|p| p.plain()).collect();
    let j = RText::join(parts, &RText::run("b", ", "));
    assert_eq!(j.plain(), plains.join(", "));
}

#[test]
fn split_gives_one_part_more_than_separators() {
    let t = RText::plain_text("a--b----c-");
    let parts = t.split_text("--");
    assert_eq!(parts.len(), t.plain().matches("--").count() + 1);
    assert_eq!(parts.len(), 4);
    let aaa = RText::plain_text("aaa");
    assert_eq!(aaa.split_text("aa").len(), 2);
}
