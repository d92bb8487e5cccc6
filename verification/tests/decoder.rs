use tko::decoder::{decode_content, saved_content};

#[test]
fn decode_adds_final_line_break() {
    assert_eq!(decode_content(&b"abc".to_vec(), true), "abc\n");
    assert_eq!(decode_content(&b"abc".to_vec(), false), "abc");
    assert_eq!(decode_content(&b"x\n".to_vec(), true), "x\n");
    assert_eq!(decode_content(&Vec::new(), true), "");
}

#[test]
fn decode_falls_back_to_latin1() {
    assert_eq!(decode_content(&vec![0x41, 0xE9], false), "Aé");
}

#[test]
fn decode_normalizes() {
    let decomposed = "e\u{301}".as_bytes().to_vec();
    assert_eq!(decode_content(&decomposed, false), "é");
}

#[test]
fn save_adds_line_break() {
    assert_eq!(saved_content("abc"), "abc\n");
}
