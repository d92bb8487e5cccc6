//! Reading a task from a line of an index file.
//!
//! A task line holds `- [ ]`, then tags, then `[title](link)`: optional
//! leading whitespace, the marker `- [ ]`, any text on the same line (the
//! tags), `[`, a title without `]`, `]`, `(`, a link without `)` and an
//! optional `)`. The first marker that such a line follows is used, the tags
//! as short as possible. Tags `@key` give the key, `:type` the test, loss or
//! edit mode; the other words join the title.

use crate::chars::{copy_string, push_char, push_str, string_from_range, to_chars};
use crate::game::task::Task;
use crate::game::task_config::{TaskEdit, TaskLoss, TaskMain, TaskTest};
use crate::game::task_location::opt_view;
use crate::game::tree_item::{strip_at, TreeItemView};
use crate::paths::{is_absolute, is_absolute_spec, join, join_spec, parent, path_debug, std_parent, std_path_debug};
use crate::strs::{
    join as join_words, join_spec as join_words_spec, lemma_strings_view_push, occurs_at,
    occurs_at_exec, replace_all, replace_all_spec, split_char, split_char_spec, starts_with,
    starts_with_spec, strings_view, trim, trim_spec,
};
use vstd::prelude::*;

verus! {

/// The end of the run of characters from `i` that are not `stop`.
pub open spec fn run_end(s: Seq<char>, i: int, stop: char) -> int
    decreases s.len() - i,
{
    if i < 0 || i >= s.len() {
        i
    } else if s[i] == stop {
        i
    } else {
        run_end(s, i + 1, stop)
    }
}

/// The captures when the tags end at `j` (where a `[` must stand): the
/// tags `s[a..j]`, the title up to the next `]`, which `(` must follow, and
/// the link up to the next `)` or the end; both at least one character.
pub open spec fn captures_at(s: Seq<char>, a: int, j: int) -> Option<(Seq<char>, Seq<char>, Seq<char>)> {
    if j >= s.len() || s[j] != '[' {
        None
    } else {
        let e2 = run_end(s, j + 1, ']');
        if e2 == j + 1 || e2 >= s.len() || e2 + 1 >= s.len() || s[e2 + 1] != '(' {
            None
        } else {
            let e3 = run_end(s, e2 + 2, ')');
            if e3 == e2 + 2 {
                None
            } else {
                Some((s.subrange(a, j), s.subrange(j + 1, e2), s.subrange(e2 + 2, e3)))
            }
        }
    }
}

/// The captures with the shortest tags from `a` on, trying tag ends from
/// `j`; the tags do not cross a line break.
pub open spec fn lazy_tags(s: Seq<char>, a: int, j: int) -> Option<(Seq<char>, Seq<char>, Seq<char>)>
    decreases s.len() - j,
{
    if j < a || j >= s.len() {
        None
    } else if captures_at(s, a, j) is Some {
        captures_at(s, a, j)
    } else if s[j] == '\n' {
        None
    } else {
        lazy_tags(s, a, j + 1)
    }
}

/// The marker that opens a task line.
pub open spec fn marker() -> Seq<char> {
    seq!['-', ' ', '[', ' ', ']']
}

/// The captures of the first marker at or after `q` that a task follows.
pub open spec fn match_from(s: Seq<char>, q: int) -> Option<(Seq<char>, Seq<char>, Seq<char>)>
    decreases s.len() - q,
{
    if q < 0 || q + 5 > s.len() {
        None
    } else if occurs_at(s, q, marker()) && lazy_tags(s, q + 5, q + 5) is Some {
        lazy_tags(s, q + 5, q + 5)
    } else {
        match_from(s, q + 1)
    }
}

/// What a task line gives: the tags (trimmed, with backquotes and comment
/// marks turned into spaces), the trimmed title and the trimmed link.
pub open spec fn task_line_spec(line: Seq<char>) -> Option<(Seq<char>, Seq<char>, Seq<char>)> {
    match match_from(line, 0) {
        Some((tags, title, link)) => Some(
            (
                replace_all_spec(
                    replace_all_spec(replace_all_spec(trim_spec(tags), seq!['`'], seq![' ']), "<!--"@, seq![' ']),
                    "-->"@,
                    seq![' '],
                ),
                trim_spec(title),
                trim_spec(link),
            ),
        ),
        None => None,
    }
}

pub open spec fn key_char(c: char) -> bool {
    ('0' <= c && c <= '9') || ('a' <= c && c <= 'z') || ('A' <= c && c <= 'Z') || c == '_' || c == '+'
}

/// How many characters from the start of `s` are key characters.
pub open spec fn key_prefix_len(s: Seq<char>, i: int) -> int
    decreases s.len() - i,
{
    if i < 0 || i >= s.len() || !key_char(s[i]) {
        i
    } else {
        key_prefix_len(s, i + 1)
    }
}

proof fn lemma_key_prefix(s: Seq<char>, i: int)
    requires
        0 <= i <= s.len(),
    ensures
        i <= key_prefix_len(s, i) <= s.len(),
        forall|j: int| i <= j < key_prefix_len(s, i) ==> key_char(#[trigger] s[j]),
    decreases s.len() - i,
{
    if i < s.len() && key_char(s[i]) {
        lemma_key_prefix(s, i + 1);
    }
}

/// The words of a tag string: the non-empty pieces between spaces.
pub open spec fn tag_words(pieces: Seq<Seq<char>>) -> Seq<Seq<char>>
    decreases pieces.len(),
{
    if pieces.len() == 0 {
        Seq::empty()
    } else {
        let r = tag_words(pieces.drop_last());
        if pieces.last().len() > 0 {
            r.push(pieces.last())
        } else {
            r
        }
    }
}

/// The settings that one `:type` tag changes: `(loss, test, mode)`.
pub open spec fn type_step(st: (TaskLoss, TaskTest, TaskEdit), t: Seq<char>) -> (TaskLoss, TaskTest, TaskEdit) {
    if t == "free"@ {
        (TaskLoss::FREE, st.1, st.2)
    } else if t == "part"@ {
        (TaskLoss::PART, st.1, st.2)
    } else if t == "zero"@ {
        (TaskLoss::ZERO, st.1, st.2)
    } else if t == "test"@ {
        (st.0, TaskTest::TEST, st.2)
    } else if t == "self"@ {
        (st.0, TaskTest::SELF, st.2)
    } else if t == "view"@ {
        (st.0, st.1, TaskEdit::VIEW)
    } else if t == "edit"@ {
        (st.0, st.1, TaskEdit::EDIT)
    } else {
        st
    }
}

/// Reading tag words: `(key, settings, title words)` after words `ws`,
/// starting from a key and settings.
pub open spec fn read_tags(
    ws: Seq<Seq<char>>,
    key: Seq<char>,
    st: (TaskLoss, TaskTest, TaskEdit),
) -> (Seq<char>, (TaskLoss, TaskTest, TaskEdit), Seq<Seq<char>>)
    decreases ws.len(),
{
    if ws.len() == 0 {
        (key, st, Seq::empty())
    } else {
        let (k, s, t) = read_tags(ws.drop_last(), key, st);
        let w = ws.last();
        if w[0] == '@' {
            let rest = w.skip(1);
            (rest.take(key_prefix_len(rest, 0)), s, t)
        } else if w[0] == ':' {
            (k, type_step(s, w.skip(1)), t)
        } else {
            (k, s, t.push(w))
        }
    }
}

/// The settings after the defaults: a key starting with `+` makes the task
/// viewed, any other edited; an unset loss becomes free (viewed) or partial
/// (edited), an unset test self-checked (viewed) or tested (edited).
pub open spec fn settle(key: Seq<char>, st: (TaskLoss, TaskTest, TaskEdit)) -> (TaskLoss, TaskTest, TaskEdit) {
    let view = key.len() > 0 && key[0] == '+';
    let mode = if view {
        TaskEdit::VIEW
    } else {
        TaskEdit::EDIT
    };
    let loss = if st.0 == TaskLoss::NULL {
        if view {
            TaskLoss::FREE
        } else {
            TaskLoss::PART
        }
    } else {
        st.0
    };
    let test = if st.1 == TaskTest::NULL {
        if view {
            TaskTest::SELF
        } else {
            TaskTest::TEST
        }
    } else {
        st.1
    };
    (loss, test, mode)
}

/// Reads tasks from the lines of one index file.
#[derive(Debug)]
pub struct TaskParser {
    pub index_path: String,
    pub task: Option<Task>,
}

/// The position where the run of characters that are not `stop` ends.
fn run_end_exec(v: &Vec<char>, i: usize, stop: char) -> (r: usize)
    requires
        i <= v@.len(),
    ensures
        r as int == run_end(v@, i as int, stop),
        i <= r <= v@.len(),
{
    let mut k = i;
    while k < v.len() && v[k] != stop
        invariant
            i <= k <= v@.len(),
            run_end(v@, k as int, stop) == run_end(v@, i as int, stop),
        decreases v.len() - k,
    {
        k = k + 1;
    }
    k
}

/// The captures when the tags run from `a` to `j`.
fn captures_exec(v: &Vec<char>, a: usize, j: usize) -> (r: Option<(usize, usize, usize)>)
    requires
        a <= j <= v@.len(),
    ensures
        match r {
            Some((e2, e3, _x)) => captures_at(v@, a as int, j as int) == Some(
                (v@.subrange(a as int, j as int), v@.subrange(j + 1, e2 as int), v@.subrange(e2 + 2, e3 as int)),
            ) && j < e2 && e2 + 2 <= e3 <= v@.len(),
            None => captures_at(v@, a as int, j as int) is None,
        },
{
    if j >= v.len() || v[j] != '[' {
        return None;
    }
    let e2 = run_end_exec(v, j + 1, ']');
    if e2 == j + 1 || e2 >= v.len() || e2 + 1 >= v.len() || v[e2 + 1] != '(' {
        return None;
    }
    let e3 = run_end_exec(v, e2 + 2, ')');
    if e3 == e2 + 2 {
        return None;
    }
    Some((e2, e3, 0))
}

/// The raw captures of a task line.
fn match_exec(v: &Vec<char>) -> (r: Option<(String, String, String)>)
    ensures
        match r {
            Some((a, b, c)) => match_from(v@, 0) == Some((a@, b@, c@)),
            None => match_from(v@, 0) is None,
        },
{
    let m: Vec<char> = vec!['-', ' ', '[', ' ', ']'];
    assert(m@ =~= marker());
    let mut q: usize = 0;
    while v.len() >= 5 && q <= v.len() - 5
        invariant
            m@ == marker(),
            q <= v@.len(),
            match_from(v@, q as int) == match_from(v@, 0),
        decreases v.len() - q,
    {
        if occurs_at_exec(v, q, &m) {
            let a = q + 5;
            let mut j = a;
            let mut stop = false;
            while j < v.len() && !stop
                invariant
                    a <= j <= v@.len(),
                    a == q + 5,
                    q + 5 <= v@.len(),
                    occurs_at(v@, q as int, marker()),
                    match_from(v@, q as int) == match_from(v@, 0),
                    !stop ==> lazy_tags(v@, a as int, j as int) == lazy_tags(v@, a as int, a as int),
                    stop ==> lazy_tags(v@, a as int, a as int) is None,
                decreases v.len() - j + if stop { 0int } else { 1int },
            {
                match captures_exec(v, a, j) {
                    Some(c) => {
                        let (e2, e3, _x) = c;
                        let tags = string_from_range(v, a, j);
                        let title = string_from_range(v, j + 1, e2);
                        let link = string_from_range(v, e2 + 2, e3);
                        return Some((tags, title, link));
                    },
                    None => {
                        if v[j] == '\n' {
                            stop = true;
                        } else {
                            j = j + 1;
                        }
                    },
                }
            }
        }
        q = q + 1;
    }
    None
}

/// The key characters at the start of `s`.
fn key_prefix(s: &str) -> (r: String)
    ensures
        r@ == s@.take(key_prefix_len(s@, 0)),
{
    let v = to_chars(s);
    let mut i: usize = 0;
    while i < v.len() && is_key_char(v[i])
        invariant
            v@ == s@,
            i <= v@.len(),
            key_prefix_len(s@, i as int) == key_prefix_len(s@, 0),
        decreases v.len() - i,
    {
        i = i + 1;
    }
    let r = string_from_range(&v, 0, i);
    assert(r@ =~= s@.take(i as int));
    r
}

fn is_key_char(c: char) -> (r: bool)
    ensures
        r == key_char(c),
{
    ('0' <= c && c <= '9') || ('a' <= c && c <= 'z') || ('A' <= c && c <= 'Z') || c == '_' || c == '+'
}

impl TaskParser {
    /// A parser of the index file `index_path` of the source `source_alias`,
    /// holding a fresh task of that source.
    pub fn new(index_path: &str, source_alias: &str) -> (r: Self)
        ensures
            r.index_path@ == index_path@,
            r.task is Some,
            fresh_task(r.task.unwrap(), source_alias@),
    {
        let mut task = Task::new();
        task.identity.set_remote_name(source_alias);
        TaskParser { index_path: index_path.to_string(), task: Some(task) }
    }

    /// The longest start of `key` made of letters, digits, `_` and `+`.
    pub fn filter_task_key(key: String) -> (r: String)
        ensures
            r@ == key@.take(key_prefix_len(key@, 0)),
    {
        key_prefix(key.as_str())
    }

    /// Reads a task line: whether it is one, then its tags, title and link
    /// (see [`task_line_spec`]); empty strings when it is none.
    pub fn match_full_pattern(&self, line: &str) -> (r: (bool, String, String, String))
        ensures
            r.0 == (task_line_spec(line@) is Some),
            r.0 ==> task_line_spec(line@) == Some((r.1@, r.2@, r.3@)),
            !r.0 ==> r.1@.len() == 0 && r.2@.len() == 0 && r.3@.len() == 0,
    {
        let v = to_chars(line);
        match match_exec(&v) {
            Some((tags, title, link)) => {
                proof {
                    reveal_strlit("`");
                    reveal_strlit(" ");
                    assert("`"@ =~= seq!['`']);
                    assert(" "@ =~= seq![' ']);
                    reveal_strlit("<!--");
                    reveal_strlit("-->");
                }
                let t0 = trim(tags.as_str());
                let t1 = replace_all(t0.as_str(), "`", " ");
                let t2 = replace_all(t1.as_str(), "<!--", " ");
                let t3 = replace_all(t2.as_str(), "-->", " ");
                (true, t3, trim(title.as_str()), trim(link.as_str()))
            },
            None => (false, String::new(), String::new(), String::new()),
        }
    }
}


/// The folder of a path: its parent, or the empty path.
pub open spec fn parent_or_empty(p: Seq<char>) -> Seq<char> {
    match std_parent(p) {
        Some(q) => q,
        None => Seq::empty(),
    }
}

/// A link resolved against the folder of the index file; absolute links
/// stay as they are.
pub open spec fn redirect_spec(index_path: Seq<char>, link: Seq<char>) -> Seq<char> {
    if is_absolute_spec(link) {
        link
    } else {
        join_spec(parent_or_empty(index_path), link)
    }
}

/// Whether a link is a web address.
pub open spec fn is_web_link(link: Seq<char>) -> bool {
    starts_with_spec(link, "http://"@) || starts_with_spec(link, "https://"@)
}

/// The tag words of the tags and title of a task line.
pub open spec fn line_words(tags: Seq<char>, title: Seq<char>) -> Seq<Seq<char>> {
    tag_words(split_char_spec(tags + seq![' '] + title, ' '))
}

/// The task that a line gives, read into `t0`: `None` when the line is no
/// task line or gives no key.
pub open spec fn parsed_task_ok(t0: Task, t: Option<Task>, index_path: Seq<char>, line: Seq<char>, line_num: usize) -> bool {
    match task_line_spec(line) {
        None => t is None,
        Some((tags, title, link)) => {
            let (k, st, tw) = read_tags(
                line_words(tags, title),
                t0.identity@.key,
                (TaskLoss::NULL, t0.config.test, t0.config.mode),
            );
            if k.len() == 0 {
                t is None
            } else {
                let cfg = settle(k, st);
                let resolved = redirect_spec(index_path, link);
                &&& t is Some
                &&& t.unwrap().identity@ == (TreeItemView { key: k, title: join_words_spec(tw, seq![' ']), ..t0.identity@ })
                &&& t.unwrap().config.loss == cfg.0
                &&& t.unwrap().config.test == cfg.1
                &&& t.unwrap().config.mode == cfg.2
                &&& t.unwrap().config.path == t0.config.path
                &&& t.unwrap().info == t0.info
                &&& t.unwrap().skills == t0.skills
                &&& t.unwrap().xp == t0.xp
                &&& t.unwrap().ui == t0.ui
                &&& t.unwrap().main_idx == t0.main_idx
                &&& t.unwrap().quest_key == t0.quest_key
                &&& t.unwrap().__is_recheable == t0.__is_recheable
                &&& t.unwrap().default_min_value == t0.default_min_value
                &&& t.unwrap().location.line_number == line_num
                &&& t.unwrap().location.line@ == line
                &&& if is_web_link(link) {
                    &&& t.unwrap().location.__origin_folder is None
                    &&& t.unwrap().location.__workspace_folder is None
                    &&& t.unwrap().location.target@ == link
                } else {
                    &&& opt_view(t.unwrap().location.__origin_folder) == Some(parent_or_empty(resolved))
                    &&& opt_view(t.unwrap().location.__workspace_folder) == opt_view(t0.location.__workspace_folder)
                    &&& t.unwrap().location.target@ == if cfg.2 == TaskEdit::VIEW {
                        resolved
                    } else {
                        link
                    }
                }
            }
        },
    }
}

/// A task as a parser of the source `remote` starts it: no key or title,
/// tested, on the main path, with partial loss, edited, and no workspace.
pub open spec fn fresh_task(t: Task, remote: Seq<char>) -> bool {
    &&& t.identity@ == (TreeItemView { remote_name: remote, key: Seq::empty(), title: Seq::empty() })
    &&& t.config.test == TaskTest::TEST
    &&& t.config.path == TaskMain::MAIN
    &&& t.config.loss == TaskLoss::PART
    &&& t.config.mode == TaskEdit::EDIT
    &&& t.location.__workspace_folder is None
}

/// The loss that a tag word names: `:free`, `:part` or `:zero`.
pub open spec fn loss_tag(w: Seq<char>) -> Option<TaskLoss> {
    if w == ":free"@ {
        Some(TaskLoss::FREE)
    } else if w == ":part"@ {
        Some(TaskLoss::PART)
    } else if w == ":zero"@ {
        Some(TaskLoss::ZERO)
    } else {
        None
    }
}

/// The loss named by the last loss tag among some words, if any.
pub open spec fn last_loss(ws: Seq<Seq<char>>) -> Option<TaskLoss>
    decreases ws.len(),
{
    if ws.len() == 0 {
        None
    } else {
        match loss_tag(ws.last()) {
            Some(l) => Some(l),
            None => last_loss(ws.drop_last()),
        }
    }
}

proof fn lemma_tag_name(w: Seq<char>, name: Seq<char>, full: Seq<char>)
    requires
        w.len() > 0,
        w[0] == ':',
        full == seq![':'] + name,
    ensures
        (w == full) == (w.skip(1) == name),
{
    if w.skip(1) == name {
        assert(w =~= seq![':'] + w.skip(1));
    }
    if w == full {
        assert(w.skip(1) =~= name);
    }
}

proof fn lemma_read_tags_loss(ws: Seq<Seq<char>>, key: Seq<char>, st: (TaskLoss, TaskTest, TaskEdit))
    requires
        forall|i: int| 0 <= i < ws.len() ==> (#[trigger] ws[i]).len() > 0,
    ensures
        read_tags(ws, key, st).1.0 == match last_loss(ws) {
            Some(l) => l,
            None => st.0,
        },
    decreases ws.len(),
{
    if ws.len() > 0 {
        let init = ws.drop_last();
        assert forall|i: int| 0 <= i < init.len() implies (#[trigger] init[i]).len() > 0 by {
            assert(init[i] == ws[i]);
        }
        lemma_read_tags_loss(init, key, st);
        let w = ws.last();
        assert(w == ws[ws.len() - 1]);
        reveal_strlit(":free");
        reveal_strlit(":part");
        reveal_strlit(":zero");
        reveal_strlit("free");
        reveal_strlit("part");
        reveal_strlit("zero");
        reveal_strlit("test");
        reveal_strlit("self");
        reveal_strlit("view");
        reveal_strlit("edit");
        assert(":free"@ =~= seq![':'] + "free"@);
        assert(":part"@ =~= seq![':'] + "part"@);
        assert(":zero"@ =~= seq![':'] + "zero"@);
        assert(":free"@[0] == ':' && ":part"@[0] == ':' && ":zero"@[0] == ':');
        if w[0] == ':' {
            lemma_tag_name(w, "free"@, ":free"@);
            lemma_tag_name(w, "part"@, ":part"@);
            lemma_tag_name(w, "zero"@, ":zero"@);
        }
    }
}

proof fn lemma_tag_words_nonempty(pieces: Seq<Seq<char>>)
    ensures
        forall|i: int| 0 <= i < tag_words(pieces).len() ==> (#[trigger] tag_words(pieces)[i]).len() > 0,
    decreases pieces.len(),
{
    if pieces.len() > 0 {
        lemma_tag_words_nonempty(pieces.drop_last());
        let r = tag_words(pieces.drop_last());
        assert forall|i: int| 0 <= i < tag_words(pieces).len() implies (#[trigger] tag_words(pieces)[i]).len() > 0 by {
            if i < r.len() {
                assert(tag_words(pieces)[i] == r[i]);
            }
        }
    }
}

/// A task line whose tags name a loss (`:free`, `:part` or `:zero`; the
/// last one counts) gives a task with that loss.
pub proof fn lemma_parsed_loss(
    t0: Task,
    t: Option<Task>,
    index_path: Seq<char>,
    line: Seq<char>,
    line_num: usize,
    tags: Seq<char>,
    title: Seq<char>,
    link: Seq<char>,
)
    requires
        parsed_task_ok(t0, t, index_path, line, line_num),
        t is Some,
        task_line_spec(line) == Some((tags, title, link)),
        last_loss(line_words(tags, title)) is Some,
    ensures
        t.unwrap().config.loss == last_loss(line_words(tags, title)).unwrap(),
{
    let ws = line_words(tags, title);
    let st0 = (TaskLoss::NULL, t0.config.test, t0.config.mode);
    lemma_tag_words_nonempty(split_char_spec(tags + seq![' '] + title, ' '));
    lemma_read_tags_loss(ws, t0.identity@.key, st0);
    lemma_last_loss_set(ws);
    let (k, st, tw) = read_tags(ws, t0.identity@.key, st0);
    assert(k.len() != 0);
    assert(st.0 == last_loss(ws).unwrap());
    assert(settle(k, st).0 == st.0);
}

/// The check that a tag word names: `:test` or `:self`.
pub open spec fn test_tag(w: Seq<char>) -> Option<TaskTest> {
    if w == ":test"@ {
        Some(TaskTest::TEST)
    } else if w == ":self"@ {
        Some(TaskTest::SELF)
    } else {
        None
    }
}

/// The check named by the last check tag among some words, if any.
pub open spec fn last_test(ws: Seq<Seq<char>>) -> Option<TaskTest>
    decreases ws.len(),
{
    if ws.len() == 0 {
        None
    } else {
        match test_tag(ws.last()) {
            Some(c) => Some(c),
            None => last_test(ws.drop_last()),
        }
    }
}

proof fn lemma_read_tags_test(ws: Seq<Seq<char>>, key: Seq<char>, st: (TaskLoss, TaskTest, TaskEdit))
    requires
        forall|i: int| 0 <= i < ws.len() ==> (#[trigger] ws[i]).len() > 0,
    ensures
        read_tags(ws, key, st).1.1 == match last_test(ws) {
            Some(c) => c,
            None => st.1,
        },
        last_test(ws) is Some ==> last_test(ws).unwrap() != TaskTest::NULL,
    decreases ws.len(),
{
    if ws.len() > 0 {
        let init = ws.drop_last();
        assert forall|i: int| 0 <= i < init.len() implies (#[trigger] init[i]).len() > 0 by {
            assert(init[i] == ws[i]);
        }
        lemma_read_tags_test(init, key, st);
        let w = ws.last();
        assert(w == ws[ws.len() - 1]);
        reveal_strlit(":test");
        reveal_strlit(":self");
        reveal_strlit("free");
        reveal_strlit("part");
        reveal_strlit("zero");
        reveal_strlit("test");
        reveal_strlit("self");
        reveal_strlit("view");
        reveal_strlit("edit");
        assert(":test"@ =~= seq![':'] + "test"@);
        assert(":self"@ =~= seq![':'] + "self"@);
        assert(":test"@[0] == ':' && ":self"@[0] == ':');
        if w[0] == ':' {
            lemma_tag_name(w, "test"@, ":test"@);
            lemma_tag_name(w, "self"@, ":self"@);
        }
    }
}

/// A task line whose tags name a check (`:test` or `:self`; the last one
/// counts) gives a task with that check.
pub proof fn lemma_parsed_test(
    t0: Task,
    t: Option<Task>,
    index_path: Seq<char>,
    line: Seq<char>,
    line_num: usize,
    tags: Seq<char>,
    title: Seq<char>,
    link: Seq<char>,
)
    requires
        parsed_task_ok(t0, t, index_path, line, line_num),
        t is Some,
        task_line_spec(line) == Some((tags, title, link)),
        last_test(line_words(tags, title)) is Some,
    ensures
        t.unwrap().config.test == last_test(line_words(tags, title)).unwrap(),
{
    let ws = line_words(tags, title);
    let st0 = (TaskLoss::NULL, t0.config.test, t0.config.mode);
    lemma_tag_words_nonempty(split_char_spec(tags + seq![' '] + title, ' '));
    lemma_read_tags_test(ws, t0.identity@.key, st0);
    let (k, st, tw) = read_tags(ws, t0.identity@.key, st0);
    assert(k.len() != 0);
    assert(st.1 == last_test(ws).unwrap());
    assert(settle(k, st).1 == st.1);
}

/// A task line whose tags name no loss gives a task whose key decides it:
/// free for a key starting with `+` (a viewed task), partial otherwise; and
/// the key alone decides whether the task is viewed or edited.
pub proof fn lemma_parsed_default_loss(
    t0: Task,
    t: Option<Task>,
    index_path: Seq<char>,
    line: Seq<char>,
    line_num: usize,
    tags: Seq<char>,
    title: Seq<char>,
    link: Seq<char>,
)
    requires
        parsed_task_ok(t0, t, index_path, line, line_num),
        t is Some,
        task_line_spec(line) == Some((tags, title, link)),
    ensures
        t.unwrap().identity@.key.len() > 0,
        t.unwrap().config.mode == if t.unwrap().identity@.key[0] == '+' {
            TaskEdit::VIEW
        } else {
            TaskEdit::EDIT
        },
        last_loss(line_words(tags, title)) is None ==> t.unwrap().config.loss == if t.unwrap().identity@.key[0]
            == '+' {
            TaskLoss::FREE
        } else {
            TaskLoss::PART
        },
{
    let ws = line_words(tags, title);
    let st0 = (TaskLoss::NULL, t0.config.test, t0.config.mode);
    lemma_tag_words_nonempty(split_char_spec(tags + seq![' '] + title, ' '));
    lemma_read_tags_loss(ws, t0.identity@.key, st0);
    let (k, st, tw) = read_tags(ws, t0.identity@.key, st0);
    assert(k.len() != 0);
    assert(t.unwrap().identity@.key == k);
}

proof fn lemma_last_loss_set(ws: Seq<Seq<char>>)
    ensures
        last_loss(ws) is Some ==> last_loss(ws).unwrap() != TaskLoss::NULL,
    decreases ws.len(),
{
    if ws.len() > 0 {
        lemma_last_loss_set(ws.drop_last());
    }
}

/// Two tasks that agree outside their identity, configuration and
/// location.
pub open spec fn others_same(a: Task, b: Task) -> bool {
    &&& a.info == b.info
    &&& a.skills == b.skills
    &&& a.xp == b.xp
    &&& a.ui == b.ui
    &&& a.main_idx == b.main_idx
    &&& a.quest_key == b.quest_key
    &&& a.__is_recheable == b.__is_recheable
    &&& a.default_min_value == b.default_min_value
}

/// Applies one `:type` tag.
fn type_step_exec(task: &mut Task, t: &str)
    ensures
        (final(task).config.loss, final(task).config.test, final(task).config.mode) == type_step(
            (old(task).config.loss, old(task).config.test, old(task).config.mode),
            t@,
        ),
        final(task).config.path == old(task).config.path,
        final(task).identity == old(task).identity,
        final(task).location == old(task).location,
        others_same(*final(task), *old(task)),
{
    proof {
        reveal_strlit("free");
        reveal_strlit("part");
        reveal_strlit("zero");
        reveal_strlit("test");
        reveal_strlit("self");
        reveal_strlit("view");
        reveal_strlit("edit");
    }
    if str_eq(t, "free") {
        task.config.loss = TaskLoss::FREE;
    } else if str_eq(t, "part") {
        task.config.loss = TaskLoss::PART;
    } else if str_eq(t, "zero") {
        task.config.loss = TaskLoss::ZERO;
    } else if str_eq(t, "test") {
        task.config.test = TaskTest::TEST;
    } else if str_eq(t, "self") {
        task.config.test = TaskTest::SELF;
    } else if str_eq(t, "view") {
        task.config.mode = TaskEdit::VIEW;
    } else if str_eq(t, "edit") {
        task.config.mode = TaskEdit::EDIT;
    }
}

fn str_eq(a: &str, b: &str) -> (r: bool)
    ensures
        r == (a@ == b@),
{
    crate::chars::str_equal(a, b)
}

/// Reads tag words into a task: keys, types, then the defaults; gives the
/// title words joined by spaces.
fn read_tags_into(task: &mut Task, tags: &str) -> (r: String)
    ensures
        ({
            let (k, st, tw) = read_tags(
                tag_words(split_char_spec(tags@, ' ')),
                old(task).identity@.key,
                (TaskLoss::NULL, old(task).config.test, old(task).config.mode),
            );
            &&& final(task).identity@ == (TreeItemView { key: k, ..old(task).identity@ })
            &&& (final(task).config.loss, final(task).config.test, final(task).config.mode) == settle(k, st)
            &&& r@ == join_words_spec(tw, seq![' '])
        }),
        final(task).config.path == old(task).config.path,
        final(task).location == old(task).location,
        others_same(*final(task), *old(task)),
{
    task.config.loss = TaskLoss::NULL;
    let ghost t_init = *task;
    let pieces = split_char(tags, ' ');
    let ghost pv = strings_view(pieces@);
    let ghost ws = tag_words(pv);
    let ghost key0 = old(task).identity@.key;
    let ghost st0 = (TaskLoss::NULL, old(task).config.test, old(task).config.mode);
    let ghost id0 = old(task).identity@;
    let ghost loc0 = old(task).location;
    let ghost path0 = old(task).config.path;
    let mut title: Vec<String> = Vec::new();
    let mut i: usize = 0;
    assert(pv.take(0) =~= Seq::<Seq<char>>::empty());
    assert(strings_view(title@) =~= Seq::<Seq<char>>::empty());
    while i < pieces.len()
        invariant
            i <= pieces@.len(),
            pv == strings_view(pieces@),
            ({
                let (k, st, tw) = read_tags(tag_words(pv.take(i as int)), key0, st0);
                &&& task.identity@ == (TreeItemView { key: k, ..id0 })
                &&& (task.config.loss, task.config.test, task.config.mode) == st
                &&& strings_view(title@) == tw
            }),
            task.config.path == path0,
            task.location == loc0,
            others_same(*task, t_init),
        decreases pieces.len() - i,
    {
        proof {
            assert(pv.take(i + 1).drop_last() =~= pv.take(i as int));
            assert(pv[i as int] == pieces@[i as int]@);
        }
        let w = pieces[i].as_str();
        let n = w.unicode_len();
        proof {
            let ws_prev = tag_words(pv.take(i as int));
            if n > 0 {
                assert(tag_words(pv.take(i + 1)) == ws_prev.push(w@));
                assert(ws_prev.push(w@).drop_last() =~= ws_prev);
            } else {
                assert(tag_words(pv.take(i + 1)) == ws_prev);
            }
        }
        if n > 0 {
            let c = w.get_char(0);
            let rest = w.substring_char(1, n);
            assert(rest@ =~= w@.skip(1));
            if c == '@' {
                let key = key_prefix(rest);
                proof {
                    lemma_key_prefix(rest@, 0);
                    if key@.len() > 0 {
                        assert(key@[0] == rest@[0]);
                        assert(key_char(key@[0]));
                    }
                    assert(strip_at(key@) == key@);
                }
                task.identity.set_key(key);
            } else if c == ':' {
                type_step_exec(task, rest);
            } else {
                let ghost before = title@;
                let copy = w.to_string();
                title.push(copy);
                proof {
                    lemma_strings_view_push(before, copy);
                }
            }
        }
        i = i + 1;
    }
    assert(pv.take(pv.len() as int) =~= pv);
    let key_view = {
        let k = task.identity.get_key();
        k.unicode_len() > 0 && k.get_char(0) == '+'
    };
    if key_view {
        task.config.mode = TaskEdit::VIEW;
    } else {
        task.config.mode = TaskEdit::EDIT;
    }
    if task.config.mode == TaskEdit::VIEW {
        if task.config.loss == TaskLoss::NULL {
            task.config.loss = TaskLoss::FREE;
        }
        if task.config.test == TaskTest::NULL {
            task.config.test = TaskTest::SELF;
        }
    } else {
        if task.config.loss == TaskLoss::NULL {
            task.config.loss = TaskLoss::PART;
        }
        if task.config.test == TaskTest::NULL {
            task.config.test = TaskTest::TEST;
        }
    }
    proof {
        reveal_strlit(" ");
        assert(" "@ =~= seq![' ']);
    }
    join_words(&title, " ")
}

impl TaskParser {
    /// Reads tags into the held task (see [`read_tags`] and [`settle`]) and
    /// gives back the title words joined by spaces; nothing without a task.
    pub fn parse_key_task_types(&mut self, tags: &str) -> (r: String)
        ensures
            old(self).task is None ==> r@.len() == 0 && final(self).task is None,
            old(self).task is Some ==> ({
                let t0 = old(self).task.unwrap();
                let (k, st, tw) = read_tags(
                    tag_words(split_char_spec(tags@, ' ')),
                    t0.identity@.key,
                    (TaskLoss::NULL, t0.config.test, t0.config.mode),
                );
                &&& final(self).task is Some
                &&& final(self).task.unwrap().identity@ == (TreeItemView { key: k, ..t0.identity@ })
                &&& final(self).task.unwrap().config.loss == settle(k, st).0
                &&& final(self).task.unwrap().config.test == settle(k, st).1
                &&& final(self).task.unwrap().config.mode == settle(k, st).2
                &&& r@ == join_words_spec(tw, seq![' '])
            }),
            final(self).index_path == old(self).index_path,
    {
        match self.task.take() {
            None => String::new(),
            Some(t) => {
                let mut t = t;
                let r = read_tags_into(&mut t, tags);
                self.task = Some(t);
                r
            },
        }
    }

    /// A link resolved against the folder of the index file (see
    /// [`redirect_spec`]).
    pub fn redirect_from_readme(&self, link: &str) -> (r: String)
        ensures
            r@ == redirect_spec(self.index_path@, link@),
    {
        if !is_absolute(link) {
            let basedir = match parent(self.index_path.as_str()) {
                Some(p) => p,
                None => String::new(),
            };
            return join(basedir.as_str(), link);
        }
        link.to_string()
    }

    /// Reads a line into the held task (see [`parsed_task_ok`]): a line that
    /// is no task line, or gives no key, drops the task. The origin folder
    /// is stored as computed; resolving it on the file system is left to
    /// the caller.
    pub fn parse_line(&mut self, line: &str, line_num: usize) -> (r: &mut Self)
        ensures
            old(self).task is None ==> r.task is None,
            old(self).task is Some ==> parsed_task_ok(old(self).task.unwrap(), r.task, old(self).index_path@, line@, line_num),
            r.index_path == old(self).index_path,
            *final(self) == *final(r),
    {
        let (found, tags, title, link) = self.match_full_pattern(line);
        if !found {
            self.task = None;
        }
        let t = match self.task.take() {
            None => {
                return self;
            },
            Some(t) => t,
        };
        let mut task = t;
        let ghost t0 = task;
        task.location.line_number = line_num;
        task.location.line = line.to_string();
        let mut combined = tags.clone();
        push_char(&mut combined, ' ');
        push_str(&mut combined, title.as_str());
        assert(combined@ =~= tags@ + seq![' '] + title@);
        let new_title = read_tags_into(&mut task, combined.as_str());
        task.identity.set_title(new_title);
        if task.identity.get_key().unicode_len() == 0 {
            self.task = None;
            return self;
        }
        proof {
            reveal_strlit("http://");
            reveal_strlit("https://");
        }
        if starts_with(link.as_str(), "http://") || starts_with(link.as_str(), "https://") {
            task.location.set_remote_view_type();
            task.location.target = link;
            self.task = Some(task);
            return self;
        }
        let resolved = self.redirect_from_readme(link.as_str());
        let origin = match parent(resolved.as_str()) {
            Some(p) => p,
            None => String::new(),
        };
        task.location.set_origin_folder(origin);
        if task.config.mode == TaskEdit::VIEW {
            task.location.target = resolved;
        } else {
            task.location.target = link;
        }
        self.task = Some(task);
        self
    }

    /// The task read, if any.
    pub fn get_task(&self) -> (r: Option<&Task>)
        ensures
            r == match &self.task {
                Some(t) => Some(t),
                None => None,
            },
    {
        match &self.task {
            Some(t) => Some(t),
            None => None,
        }
    }

    /// The file that an imported task's target must be: the target taken
    /// from the folder of the index file; `None` when the held task is no
    /// import (or there is none).
    pub fn import_target_path(&self) -> (r: Option<String>)
        ensures
            match &self.task {
                Some(t) => if t.config.mode == TaskEdit::EDIT && t.location.__origin_folder is Some
                    && t.location.__workspace_folder is Some {
                    r is Some && r.unwrap()@ == join_spec(parent_or_empty(self.index_path@), t.location.target@)
                } else {
                    r is None
                },
                None => r is None,
            },
    {
        match &self.task {
            Some(t) => {
                if t.is_import_type() {
                    let basedir = match parent(self.index_path.as_str()) {
                        Some(p) => p,
                        None => String::new(),
                    };
                    Some(join(basedir.as_str(), t.location.target.as_str()))
                } else {
                    None
                }
            },
            None => None,
        }
    }

    /// Checks an imported task against whether its file (see
    /// [`TaskParser::import_target_path`]) exists: an error naming the index
    /// file and the target when an imported task's file is missing.
    pub fn check_path_try(&self, target_exists: bool) -> (r: Result<(), String>)
        ensures
            r is Err <==> (match &self.task {
                Some(t) => t.config.mode == TaskEdit::EDIT && t.location.__origin_folder is Some
                    && t.location.__workspace_folder is Some && !target_exists,
                None => false,
            }),
            r is Err ==> r->Err_0@ == seq!['P', 'a', 'r', 's', 'i', 'n', 'g', ' '] + std_path_debug(self.index_path@)
                + missing_msg() + self.task.unwrap().location.target@,
    {
        match &self.task {
            Some(t) => {
                if t.is_import_type() && !target_exists {
                    let mut msg = String::new();
                    push_str(&mut msg, "Parsing ");
                    let quoted = path_debug(self.index_path.as_str());
                    push_str(&mut msg, quoted.as_str());
                    push_str(&mut msg, ", Arquivo de tarefa não encontrado: ");
                    push_str(&mut msg, t.location.target.as_str());
                    proof {
                        reveal_strlit("Parsing ");
                        assert(msg@ =~= seq!['P', 'a', 'r', 's', 'i', 'n', 'g', ' '] + std_path_debug(self.index_path@)
                            + missing_msg() + t.location.target@);
                    }
                    return Err(msg);
                }
                Ok(())
            },
            None => Ok(()),
        }
    }
}

/// The middle of the message for a missing task file.
pub open spec fn missing_msg() -> Seq<char> {
    ", Arquivo de tarefa não encontrado: "@
}

} // verus!
