use tko::dict::DictValue;
use tko::keymap::KeyMap;
use tko::settings::git_cache::{CacheStep, GitCache, UpdateMode};
use tko::settings::rep_source::{RepSource, SourceType, STUDENT_SANDBOX_NAME};

fn s(x: &str) -> DictValue {
    DictValue::Str(x.to_string())
}

#[test]
fn git_cache_defaults() {
    let c = GitCache::new("/cache".to_string(), None, None);
    assert_eq!(c.max_age_secs, 3600);
    assert_eq!(c.update_mode, UpdateMode::IfOlder);
    assert!(c.updated.is_empty());
    let c2 = GitCache::new("/cache".to_string(), Some(10), Some(UpdateMode::NEVER));
    assert_eq!(c2.max_age_secs, 10);
    assert_eq!(c2.update_mode, UpdateMode::NEVER);
}

#[test]
fn git_cache_repo_dir_is_sha1_hex() {
    let c = GitCache::new("/cache".to_string(), None, None);
    assert_eq!(c.__repo_dir("abc"), "/cache/a9993e364706816aba3e25717850c26c9cd0d89d");
    assert_eq!(c.__lock_path("/cache/abcd"), "/cache/abcd.lock");
}

#[test]
fn git_cache_commands() {
    let c = GitCache::new("/cache".to_string(), None, None);
    assert_eq!(
        c.clone_repo("https://x/y.git", "/cache/d"),
        vec!["clone", "--depth", "1", "--filter=blob:none", "--no-single-branch", "https://x/y.git", "/cache/d"]
    );
    let u = c.update_commands();
    assert_eq!(u.len(), 3);
    assert_eq!(u[0], vec!["fetch", "--prune", "origin"]);
    assert_eq!(u[1], vec!["reset", "--hard", "origin/HEAD"]);
    assert_eq!(u[2], vec!["clean", "-fd"]);
}

#[test]
fn git_cache_update_rules() {
    let mut c = GitCache::new("/cache".to_string(), Some(100), Some(UpdateMode::ALWAYS));
    assert!(c.should_update("r", false));
    c.update("r");
    assert!(!c.should_update("r", false));
    assert!(c.should_update("r", true));
    assert!(c.is_expired(None));
    assert!(c.is_expired(Some(101)));
    assert!(!c.is_expired(Some(100)));
    let n = GitCache::new("/cache".to_string(), None, Some(UpdateMode::NEVER));
    assert!(!n.should_update("r", false));
}

#[test]
fn rep_source_kinds() {
    let r = RepSource::new("fup", None);
    assert!(r.is_local());
    assert!(r.is_read_only());
    assert_eq!(r.index, "README.md");
    let g = RepSource::new("fup", None).set_git_source("https://x/y", None);
    assert!(g.is_git_source());
    assert!(g.is_read_only());
    assert_eq!(g.get_url_link(), "https://x/y");
    assert_eq!(g.get_source_folder(), Err("Git cache is not set for git source".to_string()));
    let g2 = g.set_git_cache(GitCache::new("/cache".to_string(), None, None));
    assert_eq!(g2.get_source_folder().unwrap().len(), "/cache/".len() + 40);
    let sb = RepSource::new("x", None).set_student_sandbox();
    assert_eq!(sb.name, STUDENT_SANDBOX_NAME);
    assert!(sb.get_writeable());
    assert!(!sb.is_read_only());
    assert_eq!(sb.get_source_folder(), Err("Local workspace is not set".to_string()));
}

#[test]
fn rep_source_folders() {
    let mut r = RepSource::new("fup", None).set_local_source("/db/fup", false);
    assert_eq!(r.get_source_folder(), Ok("/db/fup".to_string()));
    assert_eq!(r.get_source_readme(), Ok("/db/fup/README.md".to_string()));
    assert_eq!(r.get_workspace(), Err("Local workspace is not set".to_string()));
    r.set_repo_globals("/ws".to_string(), "/cache".to_string());
    assert_eq!(r.get_workspace(), Ok(&"/ws".to_string()));
    assert_eq!(r.get_repo_cache_folder(), Ok(&"/cache".to_string()));
    assert_eq!(r.get_task_workspace("soma"), Ok("/ws/soma".to_string()));
    let w = r.set_writeable(true);
    assert_eq!(
        w.get_task_workspace("soma"),
        Err("Source is not read-only, task workspace is the same as source workspace".to_string())
    );
}

#[test]
fn rep_source_load_from_dict() {
    let d = DictValue::Object(vec![
        ("alias".to_string(), s("poo")),
        ("link".to_string(), s("https://x/y/README.md")),
        ("type".to_string(), s("local")),
        ("filters".to_string(), DictValue::Array(vec![s("q1")])),
        ("writeable".to_string(), DictValue::Bool(true)),
    ]);
    let r = RepSource::new("", None).load_from_dict(&d);
    assert_eq!(r.name, "poo");
    assert_eq!(r.target, "https://x/y");
    assert_eq!(r.source_type, SourceType::LocalFile);
    assert_eq!(r.branch, Some("master".to_string()));
    assert!(r.writeable);
    assert_eq!(r.index, "README.md");
    let q = r.quests.as_ref().unwrap();
    assert!(q.contains_key("q1"));
    assert!(r.tasks.is_none());
}

#[test]
fn rep_source_save_load_roundtrip() {
    let mut quests: KeyMap<String> = KeyMap::new();
    quests.insert("q".to_string(), String::new());
    let r = RepSource::new("fup", None)
        .set_git_source("https://x/y", Some("dev".to_string()))
        .set_filters(Some(quests), None);
    let d = r.save_to_dict();
    let back = RepSource::new("other", None).load_from_dict(&d);
    assert_eq!(back.name, "fup");
    assert_eq!(back.target, "https://x/y");
    assert_eq!(back.source_type, SourceType::GitSource);
    assert_eq!(back.branch, Some("dev".to_string()));
    assert_eq!(back.writeable, false);
    assert!(back.quests.as_ref().unwrap().contains_key("q"));
    assert!(back.tasks.is_none());
    assert_eq!(SourceType::GitSource.to_string(), "git");
    assert_eq!(SourceType::LocalFile.to_string(), "local");
}

#[test]
fn rep_source_folder_after_fetch() {
    let g = RepSource::new("fup", None).set_git_source("https://x/y", None);
    assert_eq!(g.get_source_folder_fetched(Some("/c/d".to_string())), Err("Git cache is not set for git source".to_string()));
    let g = g.set_git_cache(GitCache::new("/cache".to_string(), None, None));
    assert_eq!(g.get_source_folder_fetched(Some("/c/d".to_string())), Ok("/c/d".to_string()));
    assert_eq!(g.get_source_folder_fetched(None), Err("Failed to get repository directory".to_string()));
    assert_eq!(g.get_source_readme_fetched(Some("/c/d".to_string())), Ok("/c/d/README.md".to_string()));
    let l = RepSource::new("fup", None).set_local_source("/db", true);
    assert_eq!(l.get_source_folder_fetched(None), Ok("/db".to_string()));
}

#[test]
fn git_cache_steps() {
    let mut c = GitCache::new("/cache".to_string(), None, Some(UpdateMode::ALWAYS));
    assert_eq!(c.get_step("r", false, false, None), CacheStep::Clone);
    assert_eq!(c.get_step("r", true, false, None), CacheStep::Update);
    assert_eq!(c.get_step("r", true, false, Some(false)), CacheStep::Reclone);
    assert_eq!(c.get_step("r", true, false, Some(true)), CacheStep::Done);
    c.update("r");
    assert_eq!(c.get_step("r", true, false, None), CacheStep::Done);
    assert_eq!(c.get_step("r", true, true, None), CacheStep::Update);
}
