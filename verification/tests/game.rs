use tko::game::game_builder::GameBuilder;
use tko::game::quest::{startswith, Quest};
use tko::game::quest_parser::QuestParser;
use tko::game::task::Task;
use tko::game::task_config::{TaskEdit, TaskLoss, TaskTest};
use tko::game::task_info::TaskSelfInfo;
use tko::game::task_parser::TaskParser;
use tko::keymap::KeyMap;
use tko::settings::rep_source::RepSource;

fn task(key: &str, title: &str, rate: i32) -> Task {
    let mut t = Task::new();
    t.identity.set_key(key.to_string());
    t.identity.set_title(title.to_string());
    t.info.rate = rate;
    t
}

#[test]
fn task_rate_colours() {
    let t = Task::new();
    assert_eq!(t.get_xp(), 1);
    assert_eq!(t.get_rate_color(0, None), "c");
    assert_eq!(t.get_rate_color(3, None), "r");
    assert_eq!(t.get_rate_color(7, None), "y");
    assert_eq!(t.get_rate_color(7, Some(8)), "r");
    assert_eq!(t.get_rate_color(10, None), "g");
    assert_eq!(t.get_rate_color(11, None), "w");
}

#[test]
fn task_rate_symbols() {
    let t = Task::new();
    assert_eq!(t.get_rate_symbol(0, None).get_str(), "x");
    let seven = t.get_rate_symbol(7, None);
    assert_eq!(seven.get_str(), "7");
    assert_eq!(seven.data[0].fmt, "y");
    assert_eq!(t.get_rate_symbol(10, None).get_str(), "✓");
    assert_eq!(t.get_rate_symbol(12, None).get_str(), "0");
}

#[test]
fn task_full_title() {
    let t = task("abc", "My task", 0);
    assert_eq!(t.get_full_title(None, ' '), "@abc My task");
    assert_eq!(t.get_full_title(Some(5), '.'), "@abc.. My task");
    let u = task("abc", "do @abc now", 0);
    assert_eq!(u.get_full_title(None, ' '), "do @abc now");
}

#[test]
fn task_decode_from_dict() {
    let mut t = Task::new();
    t.decode_from_dict("{rate:80, self:1, idx:3, friend: ana }");
    assert_eq!(t.info.rate, 80);
    assert!(t.info.feedback);
    assert_eq!(t.main_idx, 3);
    assert_eq!(t.info.friend, "ana");
    assert!(!t.is_db_empty());
    assert!(Task::new().is_db_empty());
}

#[test]
fn task_progress() {
    assert!(task("a", "A", 70).is_complete());
    assert!(!task("a", "A", 69).is_complete());
    assert!(task("a", "A", 0).not_started());
    assert!(task("a", "A", 99).in_progress());
    assert!(!task("a", "A", 100).in_progress());
}

#[test]
fn task_at_symbol() {
    assert!(task("a", "see @b here", 0).has_at_symbol());
    assert!(!task("a", "see b@ here", 0).has_at_symbol());
}

#[test]
fn self_info_reload_changes_nothing() {
    let mut i = TaskSelfInfo::new();
    i.rate = 55;
    i.study = 30;
    i.friend = "bob".to_string();
    i.ia_code = true;
    i.feedback = true;
    TaskSelfInfo::clone(&mut i);
    assert_eq!(i.rate, 55);
    assert_eq!(i.study, 30);
    assert_eq!(i.friend, "bob");
    assert!(i.ia_code);
    assert!(i.feedback);
    assert!(!i.guided);
}

#[test]
fn quest_requirements_and_tasks() {
    let mut q = Quest::new("Title".to_string(), "@key".to_string());
    assert_eq!(q.tree.get_key(), "key");
    q.tree.set_remote_name("src");
    q.add_require_key("@x".to_string());
    assert_eq!(q.requires, vec!["src@@x".to_string()]);
    q.skills.insert("py".to_string(), 2);
    let mut t = task("t1", "B task", 80);
    t.skills.insert("py".to_string(), 1);
    t.skills.insert("c".to_string(), 1);
    q.add_task(t);
    q.add_task(task("t2", "A task", 10));
    let tasks = q.get_tasks();
    assert_eq!(tasks.len(), 2);
    assert_eq!(q.__tasks[0].skills.get("py"), Some(&2));
    assert_eq!(q.__tasks[0].skills.get("c"), Some(&1));
    assert_eq!(q.get_completion(), (1, 2));
    q.sort_tasks_by_title();
    assert_eq!(q.__tasks[0].identity.get_title(), "A task");
    assert_eq!(q.__tasks[1].identity.get_title(), "B task");
    assert_eq!(q.get_full_title(true).get_str(), ":Title +py*2");
    q.update_tasks_reachable();
    assert!(q.__tasks[0].is_reachable());
}

#[test]
fn quest_startswith() {
    assert!(startswith("abc".to_string(), "ab".to_string()));
    assert!(!startswith("a".to_string(), "ab".to_string()));
}

#[test]
fn quest_parser_reads_words() {
    let mut p = QuestParser::new("src".to_string());
    let title = p.process_words("Intro @intro +py:2 +c =python %60 !base extra  words");
    assert_eq!(title, "Intro extra words");
    assert_eq!(p.quest.tree.get_key(), "intro");
    assert_eq!(p.quest.skills.get("py"), Some(&2));
    assert_eq!(p.quest.skills.get("c"), Some(&1));
    assert_eq!(p.quest.languages, vec!["python".to_string()]);
    assert_eq!(p.quest.min_percent_completion, 60);
    assert_eq!(p.quest.requires, vec!["src@base".to_string()]);
}

#[test]
fn quest_parser_reads_headings() {
    let mut p = QuestParser::new("src".to_string());
    let q = p.parse_quest("README.md", "## My Quest <!-- `x` -->".to_string(), 3).unwrap();
    assert_eq!(q.tree.get_title(), "My Quest x");
    assert_eq!(q.tree.get_key(), "my-quest-x");
    assert_eq!(q.skills.get("my-quest-x"), None);
    let mut p2 = QuestParser::new("src".to_string());
    assert!(p2.parse_quest("README.md", "- [ ] not a quest".to_string(), 4).is_none());
    let mut p3 = QuestParser::new("src".to_string());
    let q3 = p3.parse_quest("README.md", "### Deep @deep".to_string(), 5).unwrap();
    assert_eq!(q3.tree.get_key(), "deep");
    assert_eq!(q3.skills.get("deep"), Some(&1));
}

#[test]
fn task_parser_reads_web_task() {
    let mut p = TaskParser::new("/idx/README.md", "src");
    p.parse_line("- [ ] @hello :view [Hello World](http://x.com/a)", 1);
    let t = p.get_task().unwrap();
    assert_eq!(t.identity.get_key(), "hello");
    assert_eq!(t.identity.get_title(), "Hello World");
    assert_eq!(t.identity.get_remote_name(), "src");
    assert!(t.config.mode == TaskEdit::EDIT);
    assert!(t.config.loss == TaskLoss::PART);
    assert!(t.config.test == TaskTest::TEST);
    assert_eq!(t.location.target, "http://x.com/a");
    assert!(t.location.__origin_folder.is_none());
    assert_eq!(t.location.line_number, 1);
}

#[test]
fn task_parser_reads_local_task() {
    let mut p = TaskParser::new("/idx/README.md", "src");
    p.parse_line("  - [ ] `@+t1 :free` [T one](base/t1/README.md) rest", 2);
    let t = p.get_task().unwrap();
    assert_eq!(t.identity.get_key(), "+t1");
    assert_eq!(t.identity.get_title(), "T one");
    assert!(t.config.mode == TaskEdit::VIEW);
    assert!(t.config.loss == TaskLoss::FREE);
    assert!(t.config.test == TaskTest::TEST);
    assert_eq!(t.location.target, "/idx/base/t1/README.md");
    assert_eq!(t.location.__origin_folder, Some("/idx/base/t1".to_string()));
    assert_eq!(p.redirect_from_readme("/abs/x"), "/abs/x");
    assert!(p.check_path_try(false).is_ok());
}

#[test]
fn task_parser_rejects_other_lines() {
    let mut p = TaskParser::new("/idx/README.md", "src");
    p.parse_line("## heading", 1);
    assert!(p.get_task().is_none());
    let mut q = TaskParser::new("/idx/README.md", "src");
    q.parse_line("- [ ] no key [T](x.md)", 1);
    assert!(q.get_task().is_none());
    assert_eq!(TaskParser::filter_task_key("ab_c+d-e".to_string()), "ab_c+d");
}

#[test]
fn builder_filters_quests() {
    let source = RepSource::new("src", None).set_git_source("https://x/y.git", None);
    let mut b = GameBuilder::new(source, false);
    let mut q1 = Quest::new("Lists basics".to_string(), "lists".to_string());
    q1.tree.set_remote_name("src");
    q1.add_task(task("a", "A", 0));
    let mut q2 = Quest::new("Maps".to_string(), "maps".to_string());
    q2.tree.set_remote_name("src");
    q2.add_task(task("b", "B", 0));
    q2.add_task(task("c", "C", 0));
    b.__add_quest(q1);
    b.__add_quest(q2);
    assert_eq!(b.ordered_quests, vec!["src@lists".to_string(), "src@maps".to_string()]);
    let mut filters: KeyMap<String> = KeyMap::new();
    filters.insert("LIST".to_string(), String::new());
    filters.insert("@maps".to_string(), "all".to_string());
    b.add_filtered_quests(Some(&filters));
    assert_eq!(b.ordered_quests, vec!["src@lists".to_string(), "src@all".to_string()]);
    assert_eq!(b.quests.get("src@all").unwrap().__tasks.len(), 2);
    assert_eq!(b.quests.get("src@all").unwrap().tree.get_title(), "all");
    assert_eq!(b.active_quest.as_ref().unwrap().tree.get_key(), "all");
}

#[test]
fn builder_keeps_quests_of_language() {
    let source = RepSource::new("src", None);
    let mut b = GameBuilder::new(source, false);
    let mut q1 = Quest::new("One".to_string(), "one".to_string());
    q1.languages.push("py".to_string());
    q1.add_task(task("a", "A", 0));
    let q2 = Quest::new("Two".to_string(), "two".to_string());
    let mut q3 = Quest::new("Three".to_string(), "three".to_string());
    q3.languages.push("c".to_string());
    q3.add_task(task("b", "B", 0));
    b.__add_quest(q1);
    b.__add_quest(q2);
    b.__add_quest(q3);
    b.filter_by_langugage_and_empty("py".to_string());
    assert_eq!(b.quests.len(), 1);
    assert!(b.quests.get("@one").is_some());
    assert_eq!(b.collect_quests().len(), 1);
}

#[test]
fn builder_adds_tasks_to_active_quest() {
    let mut b = GameBuilder::new(RepSource::new("src", None), false);
    b.__add_task(task("a", "A", 0));
    let active = b.active_quest.as_ref().unwrap();
    assert_eq!(active.tree.get_title(), "Sem Quest");
    assert_eq!(active.__tasks.len(), 1);
    b.__create_cross_references();
    assert_eq!(b.quests.get("@_sem_quest").unwrap().tree.get_remote_name(), "src");
}

#[test]
fn self_info_reload_into_new() {
    let mut x = TaskSelfInfo::new();
    x.rate = 80;
    x.study = 12;
    x.friend = "ana".to_string();
    x.guided = true;
    x.ia_debug = true;
    let kv = x.get_kv();
    let mut y = TaskSelfInfo::new();
    y.load_from_kv(&kv);
    assert_eq!(y.rate, 80);
    assert_eq!(y.study, 12);
    assert_eq!(y.friend, "ana");
    assert!(y.guided && y.ia_debug);
    assert!(!y.feedback && !y.ia_code && !y.ia_concept && !y.ia_problem && !y.ia_refactor);
}

#[test]
fn builder_filter_keeps_values_and_task_order() {
    let source = RepSource::new("src", None).set_git_source("https://x/y.git", None);
    let mut b = GameBuilder::new(source, false);
    let mut q1 = Quest::new("Lists basics".to_string(), "lists".to_string());
    q1.tree.set_remote_name("src");
    q1.languages.push("py".to_string());
    q1.add_task(task("a", "A", 40));
    let mut q2 = Quest::new("Maps".to_string(), "maps".to_string());
    q2.tree.set_remote_name("src");
    q2.add_task(task("b", "B", 10));
    q2.add_task(task("c", "C", 20));
    b.__add_quest(q1);
    b.__add_quest(q2);
    let mut filters: KeyMap<String> = KeyMap::new();
    filters.insert("list".to_string(), String::new());
    filters.insert("@maps".to_string(), "all".to_string());
    filters.insert("basics".to_string(), "all".to_string());
    b.add_filtered_quests(Some(&filters));
    let lists = b.quests.get("src@lists").unwrap();
    assert_eq!(lists.languages, vec!["py".to_string()]);
    assert_eq!(lists.__tasks[0].info.rate, 40);
    let all = b.quests.get("src@all").unwrap();
    let keys: Vec<&str> = all.__tasks.iter().map(|t| t.identity.get_key()).collect();
    assert_eq!(keys, vec!["b", "c", "a"]);
    assert_eq!(all.__tasks[1].info.rate, 20);
    assert_eq!(b.active_quest.as_ref().unwrap().__tasks.len(), 3);
}

#[test]
fn builder_language_filter_keeps_quest_values() {
    let mut b = GameBuilder::new(RepSource::new("src", None), false);
    let mut q1 = Quest::new("One".to_string(), "one".to_string());
    q1.languages.push("py".to_string());
    q1.min_percent_completion = 70;
    q1.add_task(task("a", "A", 30));
    b.__add_quest(q1);
    b.filter_by_langugage_and_empty("py".to_string());
    let q = b.quests.get("@one").unwrap();
    assert_eq!(q.languages, vec!["py".to_string()]);
    assert_eq!(q.min_percent_completion, 70);
    assert_eq!(q.__tasks[0].identity.get_key(), "a");
    assert_eq!(q.__tasks[0].info.rate, 30);
}

#[test]
fn quest_sort_is_stable() {
    let mut q = Quest::new("Q".to_string(), "q".to_string());
    q.add_task(task("k1", "B", 0));
    q.add_task(task("k2", "A", 0));
    q.add_task(task("k3", "B", 0));
    q.add_task(task("k4", "A", 0));
    q.min_percent_completion = 60;
    q.sort_tasks_by_title();
    let keys: Vec<&str> = q.__tasks.iter().map(|t| t.identity.get_key()).collect();
    assert_eq!(keys, vec!["k2", "k4", "k1", "k3"]);
    assert_eq!(q.min_percent_completion, 60);
}

#[test]
fn task_parser_quotes_index_path_in_error() {
    let index = "/idx/a\"b/README.md";
    let mut p = TaskParser::new(index, "src");
    p.parse_line("- [ ] @t [T](t/README.md)", 1);
    {
        let t = p.task.as_mut().unwrap();
        t.config.mode = TaskEdit::EDIT;
        t.location.set_origin_folder("/idx/t".to_string());
        t.location.set_workspace_folder("/ws/t".to_string());
    }
    let target = p.get_task().unwrap().location.target.clone();
    let err = p.check_path_try(false).unwrap_err();
    assert_eq!(
        err,
        format!("Parsing {:?}, Arquivo de tarefa não encontrado: {}", std::path::Path::new(index), target)
    );
    assert_eq!(err, format!("Parsing \"/idx/a\\\"b/README.md\", Arquivo de tarefa não encontrado: {}", target));
    assert!(p.check_path_try(true).is_ok());
}
