use tko::feno::indexer::{replace_first_title, title_from_markdown, IndexLine, Indexer};

fn line(text: &str) -> IndexLine {
    IndexLine::new("/repo/README.md", "/repo/base").init_by_line(text)
}

#[test]
fn index_line_parses_task() {
    let l = line("- [ ] `@hello` :x [Hello World](base/hello/README.md) extra");
    assert!(l.is_task);
    assert_eq!(l.pre, "- [ ] `@hello` :x ");
    assert_eq!(l.title, "Hello World");
    assert_eq!(l.readme_file, "/repo/base/hello/README.md");
    assert_eq!(l.pos, " extra");
    assert_eq!(l.get_raw_line(), "- [ ] `@hello` :x [Hello World](base/hello/README.md) extra");
    assert_eq!(l.try_get_label(), Some("hello".to_string()));
    assert_eq!(l.get_label(), "hello");
}

#[test]
fn index_line_plain_text() {
    let l = line("## Quest");
    assert!(!l.is_task);
    assert_eq!(l.title, "");
    assert_eq!(l.get_render_line(3), "## Quest");
}

#[test]
fn index_line_absolute_link() {
    let l = line("- [ ] [T](/else/where/README.md)");
    assert!(l.is_task);
    assert_eq!(l.readme_file, "/else/where/README.md");
    assert_eq!(l.try_get_label(), Some(String::new()));
}

#[test]
fn index_line_render() {
    let l = line("- [ ] `@hello` :x [Hello World](base/hello/README.md) extra");
    assert_eq!(l.get_pre(5), "`@hello  :x`");
    assert_eq!(l.get_render_line(5), "- [ ]`@hello  :x`[Hello World](base/hello/README.md) extra");
    let m = line("- [ ] `@hi` other [T](base/hi/README.md)");
    assert_eq!(m.get_pre(2), "`@hi ` other ");
}

#[test]
fn index_line_from_readme() {
    let l = IndexLine::new("/repo/README.md", "/repo/base")
        .init_by_readme_file("/repo/base/soma/README.md".to_string(), "Soma".to_string());
    assert!(l.is_task);
    assert_eq!(l.pre, "@soma");
    assert_eq!(l.title, "Soma");
    assert_eq!(l.get_render_line(4), "- [ ]`@soma `[Soma](base/soma/README.md)");
}

#[test]
fn replace_title() {
    assert_eq!(replace_first_title("intro\n# Old\ntext", "New"), "intro\n# New\ntext");
    assert_eq!(replace_first_title("# A\n# B", "C"), "# C\n# B");
    assert_eq!(replace_first_title("no title", "C"), "no title");
    assert_eq!(replace_first_title("x # no\n", "C"), "x # no\n");
}

#[test]
fn markdown_title() {
    assert_eq!(title_from_markdown("text\n  # My Task  \nmore"), "My Task");
    assert_eq!(title_from_markdown("nothing here"), "NÃO TEM TÍTULO");
}

#[test]
fn indexer_parses_lines() {
    let ix = Indexer::new("/repo/README.md".to_string(), "/repo/base".to_string(), false);
    let lines = ix.parse_index_lines("# T\n\n## Q\n- [ ] [A](base/a/README.md)\n");
    assert_eq!(lines.len(), 4);
    assert!(!lines[0].is_task);
    assert!(lines[3].is_task);
    assert_eq!(lines[3].title, "A");
}

fn indexer_with(content: &str) -> Indexer {
    let mut ix = Indexer::new("/repo/README.md".to_string(), "/repo/base".to_string(), false);
    let lines = ix.parse_index_lines(content);
    let n = lines.len();
    ix.load_index_lines_removing_broken(lines, vec![true; n]);
    ix
}

#[test]
fn indexer_drops_broken_lines() {
    let mut ix = Indexer::new("/repo/README.md".to_string(), "/repo/base".to_string(), false);
    let lines = ix.parse_index_lines("# T\n- [ ] [A](base/a/README.md)\n- [ ] [B](base/b/README.md)");
    ix.load_index_lines_removing_broken(lines, vec![false, false, true]);
    assert_eq!(ix.index_lines.len(), 2);
    assert_eq!(ix.index_lines[1].title, "B");
}

#[test]
fn indexer_fix_titles() {
    let mut ix = indexer_with("# T\n- [ ] [Old](base/a/README.md)");
    ix.path_title_dict.insert("/repo/base/a/README.md".to_string(), "New".to_string());
    let to_save = ix.fix_titles(true, false);
    assert_eq!(to_save, vec![("/repo/base/a/README.md".to_string(), "Old".to_string())]);
    assert_eq!(ix.index_lines[1].title, "Old");
    let none = ix.fix_titles(false, true);
    assert!(none.is_empty());
    assert_eq!(ix.index_lines[1].title, "New");
}

#[test]
fn indexer_inserts_missing_in_path_order() {
    let mut ix = indexer_with("# T\n\n## Q\n- [ ] [A](base/a/README.md)");
    ix.path_title_dict.insert("/repo/base/z/README.md".to_string(), "Z".to_string());
    ix.path_title_dict.insert("/repo/base/a/README.md".to_string(), "A".to_string());
    ix.path_title_dict.insert("/repo/base/m/README.md".to_string(), "M".to_string());
    ix.found_unused_task_dirs();
    assert_eq!(ix.missing_entries.len(), 2);
    let groups = ix.insert_missing_tasks("Novas");
    assert_eq!(groups.len(), 3);
    assert_eq!(groups[2][0].get_raw_line(), "## Novas");
    assert_eq!(groups[2][1].title, "M");
    assert_eq!(groups[2][2].title, "Z");
    let text = ix.write_file(&groups).unwrap();
    assert_eq!(
        text,
        "# T\n\n\n## Q\n\n- [ ]`@a `[A](base/a/README.md)\n\n## Novas\n\n- [ ]`@m `[M](base/m/README.md)\n- [ ]`@z `[Z](base/z/README.md)\n"
    );
}
