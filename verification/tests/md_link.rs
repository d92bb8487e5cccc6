use tko::md_link::get_md_link;

#[test]
fn md_link_of_title() {
    assert_eq!(get_md_link("Hello World_X-y!".to_string()), "hello-world_x-y");
    assert_eq!(get_md_link("Ação 2".to_string()), "ação-2");
    assert_eq!(get_md_link(String::new()), "");
}

#[test]
fn md_link_alphabet() {
    let l = get_md_link("a, b.c (d) - é?!".to_string());
    assert_eq!(l, "a-bc-d---é");
    assert!(l.chars().all(|c| c == '-' || c == '_' || c.is_alphanumeric()));
}

#[test]
fn md_link_twice_is_once() {
    let once = get_md_link("Hello World-Foo_bar!".to_string());
    assert_eq!(once, "hello-world-foo_bar");
    assert_eq!(get_md_link(once.clone()), once);
}
