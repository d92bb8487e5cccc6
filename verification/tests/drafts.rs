use tko::down::sandbox_drafts::{SandboxDrafts, DRAFT_README};
use tko::play::tasktree::TreeFilter;

#[test]
fn draft_keys() {
    let d = SandboxDrafts::new();
    assert_eq!(d.format_draft_key(7), "user_007");
    assert_eq!(d.format_draft_key(1234), "user_1234");
    let keys = vec!["user_003".to_string(), "user_12".to_string(), "user_x".to_string(), "other_99".to_string()];
    assert_eq!(d.find_max_numbered_key(keys), 12);
    assert_eq!(d.find_max_numbered_key(vec![]), 0);
}

#[test]
fn draft_extensions() {
    assert_eq!(SandboxDrafts::allowed_extensions("c", None), vec!["c", "h"]);
    assert_eq!(SandboxDrafts::allowed_extensions("cpp", None), vec!["cpp", "h", "hpp"]);
    assert_eq!(SandboxDrafts::allowed_extensions("py", Some(vec!["md".to_string()])), vec!["md", "py"]);
    assert_eq!(SandboxDrafts::allowed_extensions("", None), Vec::<String>::new());
}

#[test]
fn draft_files() {
    let allowed = vec!["py".to_string()];
    assert!(SandboxDrafts::is_draft_file(&vec!["src".to_string()], "main.py", &allowed));
    assert!(!SandboxDrafts::is_draft_file(&vec![".git".to_string()], "main.py", &allowed));
    assert!(!SandboxDrafts::is_draft_file(&vec!["_x".to_string()], "main.py", &allowed));
    assert!(!SandboxDrafts::is_draft_file(&vec![], "main.c", &allowed));
}

#[test]
fn draft_text() {
    let d = SandboxDrafts::new();
    assert_eq!(d.draft_content("T"), format!("# T\n\n{}", DRAFT_README));
}

#[test]
fn tree_filter_hides() {
    assert!(TreeFilter::new(true, String::new()).hide_element());
    assert!(!TreeFilter::new(true, "a".to_string()).hide_element());
    assert!(!TreeFilter::new(false, String::new()).hide_element());
}

#[test]
fn max_numbered_key_over_keys() {
    let d = SandboxDrafts::new();
    let keys: Vec<String> = ["user_003", "user_010", "user_x", "other_99", "user_"].iter().map(|s| s.to_string()).collect();
    assert_eq!(d.find_max_numbered_key(keys), 10);
    for n in [0u32, 5, 999, 1000, u32::MAX] {
        assert_eq!(d.find_max_numbered_key(vec![d.format_draft_key(n)]), n);
    }
}
