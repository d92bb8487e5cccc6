use tko::keymap::KeyMap;

#[test]
fn keymap_read_after_write() {
    let mut m: KeyMap<i32> = KeyMap::new();
    m.insert("a".to_string(), 1);
    m.insert("b".to_string(), 2);
    m.insert("a".to_string(), 3);
    assert_eq!(m.len(), 2);
    assert_eq!(m.get("a"), Some(&3));
    assert_eq!(m.get("b"), Some(&2));
    assert_eq!(m.get("c"), None);
    let (k, v) = m.entry(0);
    assert_eq!(k, "a");
    assert_eq!(*v, 3);
    assert_eq!(m.find("b"), Some(1));
}
