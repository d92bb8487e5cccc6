//! A Markdown task index: a `# Title`, quest sections `## Quest`, and task
//! lines `- [ ] tags [Title](path/to/README.md) rest`.
//!
//! Paths are taken as given: resolving them on the file system (as the
//! index file's own reader does before handing them over), reading the
//! folders and writing the files are left to the caller.

use crate::chars::{copy_string, push_char, push_str, string_from_range, to_chars};
use crate::game::task_parser::run_end;
use crate::keymap::{lookup, str_view, KeyMap};
use crate::paths::{
    diff_paths, file_name, is_absolute, is_absolute_spec, join, join_spec, parent, path_starts_with,
    pathdiff_of, std_file_name, std_parent, std_path_starts_with,
};
use crate::strs::{
    join as join_words, join_spec as join_words_spec, lemma_strings_view_push, occurs_at,
    occurs_at_exec, pad_right, pad_right_exec, replace_all, replace_all_spec, split_whitespace,
    strings_view, trim, trim_spec, words,
};
use vstd::prelude::*;

verus! {

/// Whether a character may stand in a task label.
pub open spec fn label_char(c: char) -> bool {
    ('0' <= c && c <= '9') || ('a' <= c && c <= 'z') || ('A' <= c && c <= 'Z') || c == '_' || c == '-'
        || c == '+'
}

fn is_label_char(c: char) -> (r: bool)
    ensures
        r == label_char(c),
{
    ('0' <= c && c <= '9') || ('a' <= c && c <= 'z') || ('A' <= c && c <= 'Z') || c == '_' || c == '-'
        || c == '+'
}

/// The end of the run from `i` of characters that are neither `(` nor `)`.
pub open spec fn link_end(s: Seq<char>, i: int) -> int
    decreases s.len() - i,
{
    if i < 0 || i >= s.len() {
        i
    } else if s[i] == '(' || s[i] == ')' {
        i
    } else {
        link_end(s, i + 1)
    }
}

/// Whether `s[i..]` holds no line break.
pub open spec fn no_break_from(s: Seq<char>, i: int) -> bool {
    forall|k: int| i <= k < s.len() ==> s[k] != '\n'
}

/// The parts of an index task line when the title's `[` stands at `j`:
/// the text before it, the title up to `]`, the link (no parentheses) up to
/// `)`, and the rest of the line.
pub open spec fn index_parts_at(s: Seq<char>, j: int) -> Option<(Seq<char>, Seq<char>, Seq<char>, Seq<char>)> {
    if j >= s.len() || s[j] != '[' {
        None
    } else {
        let e2 = run_end(s, j + 1, ']');
        if e2 >= s.len() || e2 + 1 >= s.len() || s[e2 + 1] != '(' {
            None
        } else {
            let e3 = link_end(s, e2 + 2);
            if e3 >= s.len() || s[e3] != ')' || !no_break_from(s, e3 + 1) {
                None
            } else {
                Some((s.subrange(0, j), s.subrange(j + 1, e2), s.subrange(e2 + 2, e3), s.subrange(e3 + 1, s.len() as int)))
            }
        }
    }
}

/// The parts with the title's `[` as early as possible from `j` on, not
/// past a line break.
pub open spec fn index_parts_from(s: Seq<char>, j: int) -> Option<(Seq<char>, Seq<char>, Seq<char>, Seq<char>)>
    decreases s.len() - j,
{
    if j < 5 || j >= s.len() {
        None
    } else if index_parts_at(s, j) is Some {
        index_parts_at(s, j)
    } else if s[j] == '\n' {
        None
    } else {
        index_parts_from(s, j + 1)
    }
}

/// The parts of a line that starts with `- [ ]` and then holds
/// `[title](link)`.
pub open spec fn index_parts(s: Seq<char>) -> Option<(Seq<char>, Seq<char>, Seq<char>, Seq<char>)> {
    if occurs_at(s, 0, seq!['-', ' ', '[', ' ', ']']) {
        index_parts_from(s, 5)
    } else {
        None
    }
}

/// The folder of a path, or `.`.
pub open spec fn parent_or_dot(p: Seq<char>) -> Seq<char> {
    match std_parent(p) {
        Some(q) => q,
        None => seq!['.'],
    }
}

/// The name of the folder that holds a path, or nothing.
pub open spec fn folder_name(p: Seq<char>) -> Seq<char> {
    match std_parent(p) {
        Some(q) => match std_file_name(q) {
            Some(n) => n,
            None => Seq::empty(),
        },
        None => Seq::empty(),
    }
}

/// One line of the index, read as a task line when it is one.
#[derive(Debug)]
pub struct IndexLine {
    pub raw_line: String,
    pub is_task: bool,
    pub pre: String,
    pub title: String,
    pub readme_file: String,
    pub pos: String,
    pub index_path: String,
    pub base_dir: String,
}

/// The abstract value of an [`IndexLine`].
pub struct IndexLineView {
    pub raw_line: Seq<char>,
    pub is_task: bool,
    pub pre: Seq<char>,
    pub title: Seq<char>,
    pub readme_file: Seq<char>,
    pub pos: Seq<char>,
    pub index_path: Seq<char>,
    pub base_dir: Seq<char>,
}

impl View for IndexLine {
    type V = IndexLineView;

    open spec fn view(&self) -> IndexLineView {
        IndexLineView {
            raw_line: self.raw_line@,
            is_task: self.is_task,
            pre: self.pre@,
            title: self.title@,
            readme_file: self.readme_file@,
            pos: self.pos@,
            index_path: self.index_path@,
            base_dir: self.base_dir@,
        }
    }
}

impl Clone for IndexLine {
    fn clone(&self) -> (r: Self)
        ensures
            r@ == self@,
    {
        IndexLine {
            raw_line: copy_string(&self.raw_line),
            is_task: self.is_task,
            pre: copy_string(&self.pre),
            title: copy_string(&self.title),
            readme_file: copy_string(&self.readme_file),
            pos: copy_string(&self.pos),
            index_path: copy_string(&self.index_path),
            base_dir: copy_string(&self.base_dir),
        }
    }
}

/// The raw label of a line: the name of the folder of its README when the
/// README lies under the base folder, else nothing.
pub open spec fn raw_label_spec(l: IndexLineView) -> Seq<char> {
    if std_path_starts_with(l.readme_file, l.base_dir) {
        folder_name(l.readme_file)
    } else {
        Seq::empty()
    }
}

/// Whether every character of a label may stand in one.
pub open spec fn label_ok(s: Seq<char>) -> bool {
    forall|i: int| 0 <= i < s.len() ==> label_char(#[trigger] s[i])
}

/// The `@label` field of a task line padded for alignment, then its `:tag`
/// words, in backquotes, then the other words.
pub open spec fn pre_spec(l: IndexLineView, key_pad: nat) -> Seq<char> {
    let label = raw_label_spec(l);
    let s0 = replace_all_spec(l.pre, seq!['@'] + label, Seq::empty());
    let s1 = replace_all_spec(s0, seq!['`'], Seq::empty());
    let s2 = replace_all_spec(s1, seq!['-', ' ', '[', ' ', ']'], Seq::empty());
    let ws = plain_words(words(trim_spec(s2)));
    let tags = colon_words(ws, true);
    let others = colon_words(ws, false);
    let tag_str = join_words_spec(tags, seq![' ']);
    let field = seq!['`', '@'] + pad_right(label, key_pad + 1, ' ') + (if tag_str.len() == 0 {
        Seq::empty()
    } else {
        seq![' '] + tag_str
    }) + seq!['`'];
    if others.len() == 0 {
        field
    } else {
        field + seq![' '] + join_words_spec(others, seq![' ']) + seq![' ']
    }
}

/// The words that do not start with `@`.
pub open spec fn plain_words(ws: Seq<Seq<char>>) -> Seq<Seq<char>>
    decreases ws.len(),
{
    if ws.len() == 0 {
        Seq::empty()
    } else {
        let r = plain_words(ws.drop_last());
        if ws.last().len() > 0 && ws.last()[0] == '@' {
            r
        } else {
            r.push(ws.last())
        }
    }
}

/// The words that start with `:` (when `colon`) or do not.
pub open spec fn colon_words(ws: Seq<Seq<char>>, colon: bool) -> Seq<Seq<char>>
    decreases ws.len(),
{
    if ws.len() == 0 {
        Seq::empty()
    } else {
        let r = colon_words(ws.drop_last(), colon);
        if (ws.last().len() > 0 && ws.last()[0] == ':') == colon {
            r.push(ws.last())
        } else {
            r
        }
    }
}

/// The README path as written in the index: relative to the folder of the
/// index file when it can be, else as it is.
pub open spec fn shown_path(l: IndexLineView) -> Seq<char> {
    match pathdiff_of(l.readme_file, parent_or_dot(l.index_path)) {
        Some(p) => p,
        None => l.readme_file,
    }
}

/// How a line is written back: a task line as
/// `- [ ]` + prefix + `[title](path)` + rest, any other line as it was.
pub open spec fn render_spec(l: IndexLineView, key_pad: nat) -> Seq<char> {
    if !l.is_task {
        l.raw_line
    } else {
        seq!['-', ' ', '[', ' ', ']'] + pre_spec(l, key_pad) + seq!['['] + l.title + seq![']', '('] + shown_path(l)
            + seq![')'] + l.pos
    }
}

/// Finds where the title part of an index task line starts.
fn index_parts_exec(v: &Vec<char>) -> (r: Option<(usize, usize, usize)>)
    ensures
        match r {
            Some((j, e2, e3)) => 5 <= j < e2 && e2 + 2 <= e3 < v@.len() && index_parts(v@) == Some(
                (
                    v@.subrange(0, j as int),
                    v@.subrange(j + 1, e2 as int),
                    v@.subrange(e2 + 2, e3 as int),
                    v@.subrange(e3 + 1, v@.len() as int),
                ),
            ),
            None => index_parts(v@) is None,
        },
{
    let m: Vec<char> = vec!['-', ' ', '[', ' ', ']'];
    assert(m@ =~= seq!['-', ' ', '[', ' ', ']']);
    if !occurs_at_exec(v, 0, &m) {
        return None;
    }
    let mut j: usize = 5;
    while j < v.len()
        invariant
            5 <= j <= v@.len(),
            occurs_at(v@, 0, seq!['-', ' ', '[', ' ', ']']),
            index_parts_from(v@, j as int) == index_parts_from(v@, 5),
        decreases v.len() - j,
    {
        if v[j] == '[' {
            let e2 = run_end_chars(v, j + 1, ']', ']');
            if e2 < v.len() && e2 + 1 < v.len() && v[e2 + 1] == '(' {
                let e3 = run_end_chars(v, e2 + 2, '(', ')');
                if e3 < v.len() && v[e3] == ')' {
                    let mut k = e3 + 1;
                    let mut ok = true;
                    while k < v.len() && ok
                        invariant
                            e3 + 1 <= k <= v@.len(),
                            ok ==> forall|q: int| e3 + 1 <= q < k ==> v@[q] != '\n',
                            !ok ==> !no_break_from(v@, e3 + 1),
                        decreases v.len() - k + if ok { 1int } else { 0int },
                    {
                        if v[k] == '\n' {
                            ok = false;
                        } else {
                            k = k + 1;
                        }
                    }
                    if ok {
                        return Some((j, e2, e3));
                    }
                }
            }
        }
        if v[j] == '\n' {
            return None;
        }
        j = j + 1;
    }
    None
}

/// The end of the run from `i` of characters other than `a` and `b`.
fn run_end_chars(v: &Vec<char>, i: usize, a: char, b: char) -> (r: usize)
    requires
        i <= v@.len(),
    ensures
        a == ']' && b == ']' ==> r as int == run_end(v@, i as int, ']'),
        a == '(' && b == ')' ==> r as int == link_end(v@, i as int),
        i <= r <= v@.len(),
{
    let mut k = i;
    while k < v.len() && v[k] != a && v[k] != b
        invariant
            i <= k <= v@.len(),
            a == ']' && b == ']' ==> run_end(v@, k as int, ']') == run_end(v@, i as int, ']'),
            a == '(' && b == ')' ==> link_end(v@, k as int) == link_end(v@, i as int),
        decreases v.len() - k,
    {
        k = k + 1;
    }
    k
}

impl IndexLine {
    /// An empty, non-task line of the index file `index_path` with tasks
    /// under `base_dir` (both as resolved by the caller).
    pub fn new(index_path: &str, base_dir: &str) -> (r: Self)
        ensures
            r.raw_line@ == Seq::<char>::empty(),
            !r.is_task,
            r.pre@ == Seq::<char>::empty(),
            r.title@ == Seq::<char>::empty(),
            r.readme_file@ == Seq::<char>::empty(),
            r.pos@ == Seq::<char>::empty(),
            r.index_path@ == index_path@,
            r.base_dir@ == base_dir@,
    {
        IndexLine {
            raw_line: String::new(),
            is_task: false,
            pre: String::new(),
            title: String::new(),
            readme_file: String::new(),
            pos: String::new(),
            index_path: index_path.to_string(),
            base_dir: base_dir.to_string(),
        }
    }

    /// Reads a line: a task line `- [ ] tags [title](link) rest` (see
    /// [`index_parts`]) fills the prefix, title, README path (the link taken
    /// from the folder of the index file unless absolute) and rest.
    pub fn init_by_line(self, line: &str) -> (r: Self)
        ensures
            r.raw_line@ == line@,
            r.is_task == (index_parts(line@) is Some || self.is_task),
            r.index_path == self.index_path,
            r.base_dir == self.base_dir,
            match index_parts(line@) {
                Some((pre, title, link, pos)) => {
                    &&& r.pre@ == pre
                    &&& r.title@ == title
                    &&& r.pos@ == pos
                    &&& r.readme_file@ == if is_absolute_spec(link) {
                        link
                    } else {
                        join_spec(parent_or_dot(self.index_path@), link)
                    }
                },
                None => r.pre == self.pre && r.title == self.title && r.pos == self.pos && r.readme_file
                    == self.readme_file,
            },
    {
        let mut l = self;
        l.raw_line = line.to_string();
        let v = to_chars(line);
        match index_parts_exec(&v) {
            Some((j, e2, e3)) => {
                l.is_task = true;
                l.pre = string_from_range(&v, 0, j);
                l.title = string_from_range(&v, j + 1, e2);
                let file = string_from_range(&v, e2 + 2, e3);
                l.readme_file = if is_absolute(file.as_str()) {
                    file
                } else {
                    let dir = match parent(l.index_path.as_str()) {
                        Some(p) => p,
                        None => {
                            let mut d = String::new();
                            push_char(&mut d, '.');
                            d
                        },
                    };
                    join(dir.as_str(), file.as_str())
                };
                l.pos = string_from_range(&v, e3 + 1, v.len());
            },
            None => {},
        }
        l
    }

    /// A task line made from a README found on disk: prefix `@folder`,
    /// where the folder is the one that holds the README.
    pub fn init_by_readme_file(self, readme_file: String, title: String) -> (r: Self)
        ensures
            r.readme_file@ == readme_file@,
            r.title@ == title@,
            r.pre@ == seq!['@'] + folder_name(readme_file@),
            r.is_task,
            r.raw_line == self.raw_line,
            r.pos == self.pos,
            r.index_path == self.index_path,
            r.base_dir == self.base_dir,
    {
        let key = match parent(readme_file.as_str()) {
            Some(p) => match file_name(p.as_str()) {
                Some(n) => n,
                None => String::new(),
            },
            None => String::new(),
        };
        let mut l = self;
        l.readme_file = readme_file;
        l.title = title;
        let mut pre = String::new();
        push_char(&mut pre, '@');
        push_str(&mut pre, key.as_str());
        l.pre = pre;
        l.is_task = true;
        l
    }

    /// The line as it was read.
    pub fn get_raw_line(&self) -> (r: &str)
        ensures
            r@ == self.raw_line@,
    {
        self.raw_line.as_str()
    }

    /// The label of the line (see [`raw_label_spec`]), when all its
    /// characters may stand in a label.
    pub fn try_get_label(&self) -> (r: Option<String>)
        ensures
            match r {
                Some(s) => label_ok(raw_label_spec(self@)) && s@ == raw_label_spec(self@),
                None => !label_ok(raw_label_spec(self@)),
            },
    {
        let raw = if path_starts_with(self.readme_file.as_str(), self.base_dir.as_str()) {
            match parent(self.readme_file.as_str()) {
                Some(p) => match file_name(p.as_str()) {
                    Some(n) => n,
                    None => String::new(),
                },
                None => String::new(),
            }
        } else {
            String::new()
        };
        assert(raw@ == raw_label_spec(self@));
        let v = to_chars(raw.as_str());
        let mut i: usize = 0;
        while i < v.len()
            invariant
                i <= v@.len(),
                v@ == raw@,
                raw@ == raw_label_spec(self@),
                forall|k: int| 0 <= k < i ==> label_char(#[trigger] v@[k]),
            decreases v.len() - i,
        {
            if !is_label_char(v[i]) {
                assert(!label_char(raw@[i as int]));
                return None;
            }
            i = i + 1;
        }
        Some(raw)
    }

    /// The label of the line: the name of the folder of its README when the
    /// README lies under the base folder, else nothing.
    pub fn get_label(&self) -> (r: String)
        requires
            label_ok(raw_label_spec(self@)),
        ensures
            r@ == raw_label_spec(self@),
    {
        self.try_get_label().unwrap()
    }

    /// The `@label` field padded to `key_pad + 1` characters with the
    /// `:tag` words of the prefix, in backquotes, then the other words.
    pub fn get_pre(&self, key_pad: usize) -> (r: String)
        requires
            label_ok(raw_label_spec(self@)),
            key_pad < usize::MAX,
        ensures
            r@ == pre_spec(self@, key_pad as nat),
    {
        let label = self.get_label();
        let mut at_label = String::new();
        push_char(&mut at_label, '@');
        push_str(&mut at_label, label.as_str());
        proof {
            reveal_strlit("");
            reveal_strlit("`");
            reveal_strlit("- [ ]");
            assert(""@ =~= Seq::<char>::empty());
            assert("`"@ =~= seq!['`']);
            assert("- [ ]"@ =~= seq!['-', ' ', '[', ' ', ']']);
        }
        let s0 = replace_all(self.pre.as_str(), at_label.as_str(), "");
        let s1 = replace_all(s0.as_str(), "`", "");
        let s2 = replace_all(s1.as_str(), "- [ ]", "");
        let t = trim(s2.as_str());
        let ws = split_whitespace(t.as_str());
        let ghost wv = strings_view(ws@);
        let mut tags: Vec<String> = Vec::new();
        let mut others: Vec<String> = Vec::new();
        let mut i: usize = 0;
        assert(wv.take(0) =~= Seq::<Seq<char>>::empty());
        assert(strings_view(tags@) =~= Seq::<Seq<char>>::empty());
        assert(strings_view(others@) =~= Seq::<Seq<char>>::empty());
        while i < ws.len()
            invariant
                i <= ws@.len(),
                wv == strings_view(ws@),
                strings_view(tags@) == colon_words(plain_words(wv.take(i as int)), true),
                strings_view(others@) == colon_words(plain_words(wv.take(i as int)), false),
            decreases ws.len() - i,
        {
            proof {
                assert(wv.take(i + 1).drop_last() =~= wv.take(i as int));
                assert(wv[i as int] == ws@[i as int]@);
            }
            let w = ws[i].as_str();
            let n = w.unicode_len();
            let first = if n > 0 {
                w.get_char(0)
            } else {
                ' '
            };
            if n > 0 && first == '@' {
            } else if n > 0 && first == ':' {
                let ghost before = tags@;
                let c = w.to_string();
                tags.push(c);
                proof {
                    lemma_strings_view_push(before, c);
                    let p = plain_words(wv.take(i as int));
                    assert(plain_words(wv.take(i + 1)) == p.push(w@));
                    assert(p.push(w@).drop_last() =~= p);
                }
            } else {
                let ghost before = others@;
                let c = w.to_string();
                others.push(c);
                proof {
                    lemma_strings_view_push(before, c);
                    let p = plain_words(wv.take(i as int));
                    assert(plain_words(wv.take(i + 1)) == p.push(w@));
                    assert(p.push(w@).drop_last() =~= p);
                }
            }
            i = i + 1;
        }
        assert(wv.take(wv.len() as int) =~= wv);
        proof {
            reveal_strlit(" ");
            assert(" "@ =~= seq![' ']);
        }
        let tag_str = join_words(&tags, " ");
        let mut field = String::new();
        push_char(&mut field, '`');
        push_char(&mut field, '@');
        let padded = pad_right_exec(label.as_str(), key_pad + 1, ' ');
        push_str(&mut field, padded.as_str());
        if tag_str.as_str().unicode_len() > 0 {
            push_char(&mut field, ' ');
            push_str(&mut field, tag_str.as_str());
        }
        push_char(&mut field, '`');
        if others.len() == 0 {
            proof {
                assert(field@ =~= pre_spec(self@, key_pad as nat));
            }
            return field;
        }
        let rest = join_words(&others, " ");
        push_char(&mut field, ' ');
        push_str(&mut field, rest.as_str());
        push_char(&mut field, ' ');
        proof {
            assert(field@ =~= pre_spec(self@, key_pad as nat));
        }
        field
    }

    /// The line as it is written back (see [`render_spec`]).
    pub fn get_render_line(&self, key_pad: usize) -> (r: String)
        requires
            self.is_task ==> label_ok(raw_label_spec(self@)),
            key_pad < usize::MAX,
        ensures
            r@ == render_spec(self@, key_pad as nat),
    {
        if !self.is_task {
            return copy_string(&self.raw_line);
        }
        let dir = match parent(self.index_path.as_str()) {
            Some(p) => p,
            None => {
                let mut d = String::new();
                push_char(&mut d, '.');
                d
            },
        };
        proof {
            assert(dir@ == parent_or_dot(self.index_path@));
        }
        let path = match diff_paths(self.readme_file.as_str(), dir.as_str()) {
            Some(p) => p,
            None => copy_string(&self.readme_file),
        };
        let mut out = String::new();
        push_str(&mut out, "- [ ]");
        let pre = self.get_pre(key_pad);
        push_str(&mut out, pre.as_str());
        push_char(&mut out, '[');
        push_str(&mut out, self.title.as_str());
        push_char(&mut out, ']');
        push_char(&mut out, '(');
        push_str(&mut out, path.as_str());
        push_char(&mut out, ')');
        push_str(&mut out, self.pos.as_str());
        proof {
            reveal_strlit("- [ ]");
            assert(out@ =~= render_spec(self@, key_pad as nat));
        }
        out
    }
}


// ───────────────────────── the indexer ─────────────────────────

/// What reading one line of the index gives.
pub open spec fn line_read_spec(ip: Seq<char>, bd: Seq<char>, line: Seq<char>) -> IndexLineView {
    match index_parts(line) {
        Some((pre, title, link, pos)) => IndexLineView {
            raw_line: line,
            is_task: true,
            pre,
            title,
            readme_file: if is_absolute_spec(link) {
                link
            } else {
                join_spec(parent_or_dot(ip), link)
            },
            pos,
            index_path: ip,
            base_dir: bd,
        },
        None => IndexLineView {
            raw_line: line,
            is_task: false,
            pre: Seq::empty(),
            title: Seq::empty(),
            readme_file: Seq::empty(),
            pos: Seq::empty(),
            index_path: ip,
            base_dir: bd,
        },
    }
}

/// The line made for a README found on disk.
pub open spec fn readme_line_spec(ip: Seq<char>, bd: Seq<char>, readme: Seq<char>, title: Seq<char>) -> IndexLineView {
    IndexLineView {
        raw_line: Seq::empty(),
        is_task: true,
        pre: seq!['@'] + folder_name(readme),
        title,
        readme_file: readme,
        pos: Seq::empty(),
        index_path: ip,
        base_dir: bd,
    }
}

pub open spec fn line_views(ls: Seq<IndexLine>) -> Seq<IndexLineView> {
    Seq::new(ls.len(), |i: int| ls[i]@)
}

pub open spec fn group_views(gs: Seq<Vec<IndexLine>>) -> Seq<Seq<IndexLineView>> {
    Seq::new(gs.len(), |i: int| line_views(gs[i]@))
}

/// The lines kept: those that are no task, or whose README exists.
pub open spec fn kept_lines(ls: Seq<IndexLineView>, exists: Seq<bool>) -> Seq<IndexLineView>
    decreases ls.len(),
{
    if ls.len() == 0 {
        Seq::empty()
    } else {
        let r = kept_lines(ls.drop_last(), exists.take(ls.len() - 1));
        if !ls.last().is_task || exists[ls.len() - 1] {
            r.push(ls.last())
        } else {
            r
        }
    }
}

/// The title a task line gets from its README, when the README's title is
/// known and differs.
pub open spec fn other_title(l: IndexLineView, dict: Seq<(Seq<char>, Seq<char>)>) -> Option<Seq<char>> {
    if l.is_task {
        match lookup(dict, l.readme_file) {
            Some(t) => if t != l.title {
                Some(t)
            } else {
                None
            },
            None => None,
        }
    } else {
        None
    }
}

/// The READMEs to retitle with the titles of the index, in order.
pub open spec fn titles_to_save(ls: Seq<IndexLineView>, dict: Seq<(Seq<char>, Seq<char>)>) -> Seq<(Seq<char>, Seq<char>)>
    decreases ls.len(),
{
    if ls.len() == 0 {
        Seq::empty()
    } else {
        let r = titles_to_save(ls.drop_last(), dict);
        if other_title(ls.last(), dict) is Some {
            r.push((ls.last().readme_file, ls.last().title))
        } else {
            r
        }
    }
}

/// Whether a task line of `ls` points to `readme`.
pub open spec fn indexed(ls: Seq<IndexLineView>, readme: Seq<char>) -> bool {
    exists|i: int| 0 <= i < ls.len() && (#[trigger] ls[i]).is_task && ls[i].readme_file == readme
}

/// The READMEs on disk (with titles) that no task line points to.
pub open spec fn unused_readmes(dict: Seq<(Seq<char>, Seq<char>)>, ls: Seq<IndexLineView>) -> Seq<(Seq<char>, Seq<char>)>
    decreases dict.len(),
{
    if dict.len() == 0 {
        Seq::empty()
    } else {
        let r = unused_readmes(dict.drop_last(), ls);
        if indexed(ls, dict.last().0) {
            r
        } else {
            r.push(dict.last())
        }
    }
}

/// The sections of the index: the first line alone, then a section for each
/// `## ` line, the other non-blank lines added to the current section; with
/// the last section whose header starts with `## name`, if any.
pub open spec fn sections(ls: Seq<IndexLineView>, name: Seq<char>) -> (Seq<Seq<IndexLineView>>, Option<int>)
    decreases ls.len(),
{
    if ls.len() == 0 {
        (Seq::empty(), None)
    } else if ls.len() == 1 {
        (seq![seq![ls[0]]], None)
    } else {
        let (gs, found) = sections(ls.drop_last(), name);
        let l = ls.last();
        if starts_with_spec_local(l.raw_line, seq!['#', '#', ' ']) {
            let gs2 = gs.push(seq![l]);
            (gs2, if starts_with_spec_local(l.raw_line, seq!['#', '#', ' '] + name) {
                Some(gs2.len() - 1)
            } else {
                found
            })
        } else if trim_spec(l.raw_line).len() > 0 && gs.len() > 0 {
            (gs.update(gs.len() - 1, gs.last().push(l)), found)
        } else {
            (gs, found)
        }
    }
}

pub open spec fn starts_with_spec_local(s: Seq<char>, p: Seq<char>) -> bool {
    p.len() <= s.len() && s.take(p.len() as int) == p
}

/// Whether entries are in the order of their paths, neighbour by neighbour.
pub open spec fn path_sorted(es: Seq<(Seq<char>, IndexLineView)>) -> bool {
    forall|i: int, j: int|
        0 <= i && j == i + 1 && j < es.len() ==> !crate::paths::std_path_lt(#[trigger] es[j].0, #[trigger] es[i].0)
}

pub open spec fn entry_views(es: Seq<(Seq<char>, IndexLine)>) -> Seq<(Seq<char>, IndexLineView)> {
    Seq::new(es.len(), |i: int| (es[i].0, es[i].1@))
}

pub open spec fn seconds(es: Seq<(Seq<char>, IndexLineView)>) -> Seq<IndexLineView> {
    Seq::new(es.len(), |i: int| es[i].1)
}

/// The width of the widest label of the task lines.
pub open spec fn max_label(ls: Seq<IndexLineView>, labels: spec_fn(IndexLineView) -> nat) -> nat
    decreases ls.len(),
{
    if ls.len() == 0 {
        0
    } else {
        let m = max_label(ls.drop_last(), labels);
        if ls.last().is_task && labels(ls.last()) > m {
            labels(ls.last())
        } else {
            m
        }
    }
}

/// The lines of a text with its line feeds at the end removed, then one.
pub open spec fn trim_end_newlines(s: Seq<char>) -> Seq<char>
    decreases s.len(),
{
    if s.len() > 0 && s.last() == '\n' {
        trim_end_newlines(s.drop_last())
    } else {
        s
    }
}

/// A task index keeper.
#[derive(Debug)]
pub struct Indexer {
    pub index_path: String,
    pub base_dir: String,
    pub verbose: bool,
    pub index_lines: Vec<IndexLine>,
    pub path_title_dict: KeyMap<String>,
    pub missing_entries: KeyMap<IndexLine>,
}

impl Indexer {
    /// An indexer of `index_path` with tasks under `base_dir`, nothing read.
    pub fn new(index_path: String, base_dir: String, verbose: bool) -> (r: Self)
        ensures
            r.index_path@ == index_path@,
            r.base_dir@ == base_dir@,
            r.verbose == verbose,
            r.index_lines@.len() == 0,
            r.path_title_dict@.len() == 0,
            r.missing_entries@.len() == 0,
    {
        Indexer {
            index_path,
            base_dir,
            verbose,
            index_lines: Vec::new(),
            path_title_dict: KeyMap::new(),
            missing_entries: KeyMap::new(),
        }
    }

    /// The lines of the index text, each read (see [`line_read_spec`]).
    pub fn parse_index_lines(&self, content: &str) -> (r: Vec<IndexLine>)
        ensures
            line_views(r@) == Seq::new(
                crate::strs::lines_spec(content@).len(),
                |i: int| line_read_spec(self.index_path@, self.base_dir@, crate::strs::lines_spec(content@)[i]),
            ),
    {
        let lines = crate::strs::text_lines(content);
        let ghost lv = strings_view(lines@);
        let mut out: Vec<IndexLine> = Vec::new();
        let mut i: usize = 0;
        while i < lines.len()
            invariant
                i <= lines@.len(),
                lv == strings_view(lines@),
                lv == crate::strs::lines_spec(content@),
                out@.len() == i,
                line_views(out@) == Seq::new(
                    i as nat,
                    |k: int| line_read_spec(self.index_path@, self.base_dir@, lv[k]),
                ),
            decreases lines.len() - i,
        {
            let l = IndexLine::new(self.index_path.as_str(), self.base_dir.as_str()).init_by_line(lines[i].as_str());
            proof {
                assert(lv[i as int] == lines@[i as int]@);
                assert(l@ == line_read_spec(self.index_path@, self.base_dir@, lv[i as int]));
            }
            let ghost before = out@;
            out.push(l);
            proof {
                assert forall|k: int| 0 <= k < i implies #[trigger] out@[k]@ == line_read_spec(
                    self.index_path@,
                    self.base_dir@,
                    lv[k],
                ) by {
                    assert(out@[k] == before[k]);
                    assert(line_views(before)[k] == before[k]@);
                }
                assert(line_views(out@) =~= Seq::new(
                    (i + 1) as nat,
                    |k: int| line_read_spec(self.index_path@, self.base_dir@, lv[k]),
                ));
            }
            i = i + 1;
        }
        out
    }

    /// Keeps the lines that are no task or whose README exists (as
    /// `readme_exists` says, line by line).
    pub fn load_index_lines_removing_broken(&mut self, lines: Vec<IndexLine>, readme_exists: Vec<bool>)
        requires
            readme_exists@.len() == lines@.len(),
        ensures
            line_views(final(self).index_lines@) == kept_lines(line_views(lines@), readme_exists@),
            final(self).index_path == old(self).index_path,
            final(self).base_dir == old(self).base_dir,
            final(self).path_title_dict == old(self).path_title_dict,
            final(self).missing_entries == old(self).missing_entries,
    {
        let mut kept: Vec<IndexLine> = Vec::new();
        let mut rest = lines;
        let ghost orig = rest@;
        let ghost all = line_views(rest@);
        let ghost ex = readme_exists@;
        let n = rest.len();
        let mut i: usize = 0;
        assert(line_views(kept@) =~= kept_lines(all.take(0), ex.take(0)));
        while i < n
            invariant
                i <= n,
                n == all.len(),
                n == orig.len(),
                all == line_views(orig),
                ex.len() == n,
                rest@ == orig.skip(i as int),
                line_views(kept@) == kept_lines(all.take(i as int), ex.take(i as int)),
                readme_exists@ == ex,
            decreases n - i,
        {
            let ghost before_rest = rest@;
            let l = rest.remove(0);
            proof {
                assert(l == orig[i as int]);
                assert(l@ == all[i as int]);
                assert(rest@ =~= orig.skip(i + 1));
                assert(all.take(i + 1).drop_last() =~= all.take(i as int));
                assert(ex.take(i + 1).take(i as int) =~= ex.take(i as int));
            }
            if !l.is_task || readme_exists[i] {
                let ghost before = kept@;
                kept.push(l);
                proof {
                    assert(line_views(kept@) =~= line_views(before).push(l@));
                }
            }
            i = i + 1;
        }
        proof {
            assert(all.take(n as int) =~= all);
            assert(ex.take(n as int) =~= ex);
        }
        self.index_lines = kept;
    }

    /// Compares the titles of the task lines with those of their READMEs:
    /// gives the READMEs to retitle with the index's titles (when
    /// `save_titles`), and takes the READMEs' titles into the index (when
    /// `load_titles`). Writing the READMEs is left to the caller.
    pub fn fix_titles(&mut self, save_titles: bool, load_titles: bool) -> (r: Vec<(String, String)>)
        ensures
            final(self).index_lines@.len() == old(self).index_lines@.len(),
            forall|i: int| 0 <= i < old(self).index_lines@.len() ==> #[trigger] final(self).index_lines@[i]@ == {
                let l = old(self).index_lines@[i]@;
                match other_title(l, str_view(old(self).path_title_dict@)) {
                    Some(t) => if load_titles {
                        IndexLineView { title: t, ..l }
                    } else {
                        l
                    },
                    None => l,
                }
            },
            Seq::new(r@.len(), |i: int| (r@[i].0@, r@[i].1@)) == if save_titles {
                titles_to_save(line_views(old(self).index_lines@), str_view(old(self).path_title_dict@))
            } else {
                Seq::empty()
            },
            final(self).index_path == old(self).index_path,
            final(self).base_dir == old(self).base_dir,
            final(self).path_title_dict == old(self).path_title_dict,
            final(self).missing_entries == old(self).missing_entries,
    {
        let ghost dict = str_view(self.path_title_dict@);
        let ghost orig = self.index_lines@;
        let ghost ov = line_views(orig);
        let mut out: Vec<(String, String)> = Vec::new();
        let mut lines: Vec<IndexLine> = Vec::new();
        std::mem::swap(&mut lines, &mut self.index_lines);
        let mut i: usize = 0;
        assert(ov.take(0) =~= Seq::<IndexLineView>::empty());
        while i < lines.len()
            invariant
                i <= lines@.len(),
                lines@.len() == orig.len(),
                ov == line_views(orig),
                dict == str_view(self.path_title_dict@),
                forall|k: int| i <= k < orig.len() ==> #[trigger] lines@[k] == orig[k],
                forall|k: int| 0 <= k < i ==> #[trigger] lines@[k]@ == {
                    let l = orig[k]@;
                    match other_title(l, dict) {
                        Some(t) => if load_titles {
                            IndexLineView { title: t, ..l }
                        } else {
                            l
                        },
                        None => l,
                    }
                },
                Seq::new(out@.len(), |q: int| (out@[q].0@, out@[q].1@)) == if save_titles {
                    titles_to_save(ov.take(i as int), dict)
                } else {
                    Seq::empty()
                },
                self.index_path == old(self).index_path,
                self.base_dir == old(self).base_dir,
                self.path_title_dict == old(self).path_title_dict,
                self.missing_entries == old(self).missing_entries,
            decreases lines.len() - i,
        {
            proof {
                assert(ov.take(i + 1).drop_last() =~= ov.take(i as int));
                assert(ov[i as int] == orig[i as int]@);
                crate::keymap::lemma_str_view_lookup(self.path_title_dict@, lines@[i as int].readme_file@);
            }
            if lines[i].is_task {
                match self.path_title_dict.get(lines[i].readme_file.as_str()) {
                    Some(folder_title) => {
                        if !crate::chars::str_equal(folder_title.as_str(), lines[i].title.as_str()) {
                            if save_titles {
                                let ghost before = out@;
                                out.push((copy_string(&lines[i].readme_file), copy_string(&lines[i].title)));
                                proof {
                                    assert(Seq::new(out@.len(), |q: int| (out@[q].0@, out@[q].1@)) =~= Seq::new(
                                        before.len(),
                                        |q: int| (before[q].0@, before[q].1@),
                                    ).push((orig[i as int].readme_file@, orig[i as int].title@)));
                                }
                            }
                            if load_titles {
                                let ghost prev = lines@;
                                let mut l = lines.remove(i);
                                l.title = copy_string(folder_title);
                                lines.insert(i, l);
                                proof {
                                    assert(lines@ =~= prev.update(i as int, l));
                                }
                            }
                        }
                    },
                    None => {},
                }
            }
            i = i + 1;
        }
        proof {
            assert(ov.take(ov.len() as int) =~= ov);
        }
        self.index_lines = lines;
        out
    }

    /// Collects the READMEs of the title dictionary that no task line
    /// points to, each as a task line of its own.
    pub fn found_unused_task_dirs(&mut self)
        ensures
            final(self).missing_entries@.len() == unused_readmes(
                str_view(old(self).path_title_dict@),
                line_views(old(self).index_lines@),
            ).len(),
            forall|i: int| 0 <= i < final(self).missing_entries@.len() ==> {
                let u = unused_readmes(str_view(old(self).path_title_dict@), line_views(old(self).index_lines@))[i];
                &&& (#[trigger] final(self).missing_entries@[i]).0 == u.0
                &&& final(self).missing_entries@[i].1@ == readme_line_spec(old(self).index_path@, old(self).base_dir@, u.0, u.1)
            },
            final(self).index_lines == old(self).index_lines,
            final(self).path_title_dict == old(self).path_title_dict,
            final(self).index_path == old(self).index_path,
            final(self).base_dir == old(self).base_dir,
    {
        let ghost dict = str_view(self.path_title_dict@);
        let ghost lv = line_views(self.index_lines@);
        let mut missing: KeyMap<IndexLine> = KeyMap::new();
        let mut i: usize = 0;
        let _count = self.path_title_dict.len();
        assert(dict.take(0) =~= Seq::<(Seq<char>, Seq<char>)>::empty());
        while i < self.path_title_dict.len()
            invariant
                i <= self.path_title_dict@.len(),
                dict == str_view(self.path_title_dict@),
                lv == line_views(self.index_lines@),
                crate::keymap::keys_distinct(self.path_title_dict@),
                missing@.len() == unused_readmes(dict.take(i as int), lv).len(),
                forall|q: int| 0 <= q < missing@.len() ==> {
                    let u = unused_readmes(dict.take(i as int), lv)[q];
                    &&& (#[trigger] missing@[q]).0 == u.0
                    &&& missing@[q].1@ == readme_line_spec(self.index_path@, self.base_dir@, u.0, u.1)
                },
                forall|q: int| 0 <= q < missing@.len() ==> exists|p: int| 0 <= p < i && #[trigger] missing@[q].0 == dict[p].0,
            decreases self.path_title_dict@.len() - i,
        {
            proof {
                assert(dict.take(i + 1).drop_last() =~= dict.take(i as int));
            }
            let (readme, title) = self.path_title_dict.entry(i);
            let mut used = false;
            let mut k: usize = 0;
            while k < self.index_lines.len() && !used
                invariant
                    k <= self.index_lines@.len(),
                    lv == line_views(self.index_lines@),
                    !used ==> forall|q: int| 0 <= q < k ==> !(lv[q].is_task && lv[q].readme_file == readme@),
                    used ==> indexed(lv, readme@),
                decreases self.index_lines@.len() - k + if used { 0int } else { 1int },
            {
                if self.index_lines[k].is_task && crate::chars::str_equal(self.index_lines[k].readme_file.as_str(), readme.as_str()) {
                    assert(lv[k as int].is_task && lv[k as int].readme_file == readme@);
                    used = true;
                } else {
                    k = k + 1;
                }
            }
            if !used {
                let l = IndexLine::new(self.index_path.as_str(), self.base_dir.as_str()).init_by_readme_file(
                    copy_string(readme),
                    copy_string(title),
                );
                let ghost before = missing@;
                proof {
                    crate::keymap::lemma_key_index_found(before, readme@);
                    if crate::keymap::key_index(before, readme@) is Some {
                        let j = crate::keymap::key_index(before, readme@).unwrap();
                        let p = choose|p: int| 0 <= p < i && #[trigger] before[j].0 == dict[p].0;
                        assert(self.path_title_dict@[p].0 == self.path_title_dict@[i as int].0);
                    }
                }
                missing.insert(copy_string(readme), l);
                proof {
                    assert(missing@ == before.push((readme@, l)));
                    assert forall|q: int| 0 <= q < missing@.len() implies exists|p: int|
                        0 <= p < i + 1 && #[trigger] missing@[q].0 == dict[p].0 by {
                        if q < before.len() {
                            let p = choose|p: int| 0 <= p < i && #[trigger] before[q].0 == dict[p].0;
                            assert(missing@[q] == before[q]);
                        } else {
                            assert(missing@[q].0 == dict[i as int].0);
                        }
                    }
                }
            }
            i = i + 1;
        }
        assert(dict.take(dict.len() as int) =~= dict);
        self.missing_entries = missing;
    }
}


/// The sections after adding the missing lines: with the default section
/// made when there was none, and its index.
pub open spec fn target_sections(ix: Indexer, name: Seq<char>) -> (Seq<Seq<IndexLineView>>, int) {
    let (g, f) = sections(line_views(ix.index_lines@), name);
    match f {
        Some(t) => (g, t),
        None => (
            g.push(seq![line_read_spec(ix.index_path@, ix.base_dir@, seq!['#', '#', ' '] + name)]),
            g.len() as int,
        ),
    }
}

/// All lines of the sections, in order.
pub open spec fn flatten_lines(gs: Seq<Seq<IndexLineView>>) -> Seq<IndexLineView>
    decreases gs.len(),
{
    if gs.len() == 0 {
        Seq::empty()
    } else {
        flatten_lines(gs.drop_last()) + gs.last()
    }
}

/// The label width of a line.
pub open spec fn label_width(l: IndexLineView) -> nat {
    raw_label_spec(l).len()
}

/// The rendered lines of a section from `k` on, each with a line feed.
pub open spec fn lines_text(q: Seq<IndexLineView>, pad: nat) -> Seq<char>
    decreases q.len(),
{
    if q.len() == 0 {
        Seq::empty()
    } else {
        lines_text(q.drop_last(), pad) + render_spec(q.last(), pad) + seq!['\n']
    }
}

/// A section as written: its header and a blank line, its lines, then a
/// blank line.
pub open spec fn section_text(q: Seq<IndexLineView>, pad: nat) -> Seq<char> {
    if q.len() == 0 {
        seq!['\n']
    } else {
        render_spec(q[0], pad) + seq!['\n', '\n'] + lines_text(q.skip(1), pad) + seq!['\n']
    }
}

/// All sections as written.
pub open spec fn sections_text(gs: Seq<Seq<IndexLineView>>, pad: nat) -> Seq<char>
    decreases gs.len(),
{
    if gs.len() == 0 {
        Seq::empty()
    } else {
        sections_text(gs.drop_last(), pad) + section_text(gs.last(), pad)
    }
}

/// The index file's text: the sections written with labels padded to the
/// widest label, trailing line feeds cut down to one.
pub open spec fn index_text(gs: Seq<Seq<IndexLineView>>) -> Seq<char> {
    let pad = max_label(flatten_lines(gs), |l: IndexLineView| label_width(l));
    trim_end_newlines(sections_text(gs, pad)).push('\n')
}

/// The first position where a line starts with `# `, from `p` on.
pub open spec fn title_line_from(s: Seq<char>, p: int) -> Option<int>
    decreases s.len() - p,
{
    if p < 0 || p >= s.len() {
        None
    } else if (p == 0 || s[p - 1] == '\n') && occurs_at(s, p, seq!['#', ' ']) {
        Some(p)
    } else {
        title_line_from(s, p + 1)
    }
}

/// A Markdown text with its first `# ` line replaced by `# title`; the text
/// as it is when it has none.
pub open spec fn retitled(s: Seq<char>, title: Seq<char>) -> Seq<char> {
    match title_line_from(s, 0) {
        Some(p) => s.take(p) + seq!['#', ' '] + title + s.skip(run_end(s, p, '\n')),
        None => s,
    }
}

proof fn lemma_run_end_bounds(s: Seq<char>, i: int, stop: char)
    requires
        0 <= i <= s.len(),
    ensures
        i <= run_end(s, i, stop) <= s.len(),
    decreases s.len() - i,
{
    if i < s.len() && s[i] != stop {
        lemma_run_end_bounds(s, i + 1, stop);
    }
}

/// `content` with its first `# ` line replaced by `# new_title`.
pub fn replace_first_title(content: &str, new_title: &str) -> (r: String)
    ensures
        r@ == retitled(content@, new_title@),
{
    let v = to_chars(content);
    let m: Vec<char> = vec!['#', ' '];
    assert(m@ =~= seq!['#', ' ']);
    let mut p: usize = 0;
    while p < v.len()
        invariant
            v@ == content@,
            m@ == seq!['#', ' '],
            p <= v@.len(),
            title_line_from(v@, p as int) == title_line_from(v@, 0),
        decreases v.len() - p,
    {
        if (p == 0 || v[p - 1] == '\n') && occurs_at_exec(&v, p, &m) {
            let mut e = p;
            while e < v.len() && v[e] != '\n'
                invariant
                    p <= e <= v@.len(),
                    run_end(v@, e as int, '\n') == run_end(v@, p as int, '\n'),
                decreases v.len() - e,
            {
                e = e + 1;
            }
            let mut out = string_from_range(&v, 0, p);
            push_char(&mut out, '#');
            push_char(&mut out, ' ');
            push_str(&mut out, new_title);
            let tail = string_from_range(&v, e, v.len());
            push_str(&mut out, tail.as_str());
            proof {
                assert(v@.subrange(0, p as int) =~= v@.take(p as int));
                assert(v@.subrange(e as int, v@.len() as int) =~= v@.skip(e as int));
            }
            return out;
        }
        p = p + 1;
    }
    content.to_string()
}

impl Indexer {
    /// The index arranged in sections (see [`sections`]), with the missing
    /// READMEs' lines added, in the order of their paths, to the section
    /// whose header starts with `## default_quest_name` (a new one when
    /// there is none).
    pub fn insert_missing_tasks(&self, default_quest_name: &str) -> (r: Vec<Vec<IndexLine>>)
        ensures
            ({
                let (g2, t) = target_sections(*self, default_quest_name@);
                &&& group_views(r@).len() == g2.len()
                &&& 0 <= t < g2.len()
                &&& forall|j: int| 0 <= j < g2.len() && j != t ==> #[trigger] group_views(r@)[j] == g2[j]
                &&& exists|sp: Seq<(Seq<char>, IndexLineView)>|
                    #![trigger path_sorted(sp)]
                    sp.to_multiset() == entry_views(self.missing_entries@).to_multiset() && path_sorted(sp)
                        && group_views(r@)[t] == g2[t] + seconds(sp)
            }),
    {
        let ghost lv = line_views(self.index_lines@);
        let ghost name = default_quest_name@;
        let mut quests: Vec<Vec<IndexLine>> = Vec::new();
        let mut found: Option<usize> = None;
        let mut hdr = String::new();
        push_str(&mut hdr, "## ");
        push_str(&mut hdr, default_quest_name);
        proof {
            reveal_strlit("## ");
            assert(hdr@ =~= seq!['#', '#', ' '] + name);
        }
        let mut i: usize = 0;
        while i < self.index_lines.len()
            invariant
                i <= self.index_lines@.len(),
                lv == line_views(self.index_lines@),
                hdr@ == seq!['#', '#', ' '] + name,
                group_views(quests@) == sections(lv.take(i as int), name).0,
                match found {
                    Some(f) => sections(lv.take(i as int), name).1 == Some(f as int) && f < quests@.len(),
                    None => sections(lv.take(i as int), name).1 is None,
                },
                quests@.len() <= i,
            decreases self.index_lines.len() - i,
        {
            let l = self.index_lines[i].clone();
            let ghost prev = quests@;
            proof {
                assert(lv.take(i + 1).drop_last() =~= lv.take(i as int));
                assert(lv[i as int] == l@);
            }
            if i == 0 {
                quests.push(vec![l]);
                proof {
                    assert(lv.take(1) =~= seq![l@]);
                    assert(group_views(quests@) =~~= seq![seq![l@]]);
                }
            } else if crate::strs::starts_with(l.raw_line.as_str(), "## ") {
                let starts = crate::strs::starts_with(l.raw_line.as_str(), hdr.as_str());
                proof {
                    reveal_strlit("## ");
                    assert("## "@ =~= seq!['#', '#', ' ']);
                }
                quests.push(vec![l]);
                proof {
                    assert(group_views(quests@) =~~= group_views(prev).push(seq![l@]));
                }
                if starts {
                    found = Some(quests.len() - 1);
                }
            } else {
                let t = trim(l.raw_line.as_str());
                if t.as_str().unicode_len() > 0 && quests.len() > 0 {
                    let mut g = quests.pop().unwrap();
                    let ghost gv = line_views(g@);
                    g.push(l);
                    proof {
                        assert(line_views(g@) =~= gv.push(l@));
                    }
                    quests.push(g);
                    proof {
                        assert(group_views(quests@) =~= group_views(prev).update(prev.len() - 1, gv.push(l@)));
                    }
                }
                proof {
                    reveal_strlit("## ");
                    assert("## "@ =~= seq!['#', '#', ' ']);
                }
            }
            i = i + 1;
        }
        assert(lv.take(lv.len() as int) =~= lv);
        let target = match found {
            Some(t) => t,
            None => {
                let header = IndexLine::new(self.index_path.as_str(), self.base_dir.as_str()).init_by_line(hdr.as_str());
                let ghost prev = quests@;
                quests.push(vec![header]);
                proof {
                    assert(group_views(quests@) =~~= group_views(prev).push(seq![header@]));
                }
                quests.len() - 1
            },
        };
        let ghost g2 = group_views(quests@);
        // the missing lines, sorted by path
        let ghost mv = entry_views(self.missing_entries@);
        let mut sorted: Vec<(String, IndexLine)> = Vec::new();
        let mut k: usize = 0;
        assert(pair_views(sorted@).to_multiset() =~= mv.take(0).to_multiset()) by {
            broadcast use vstd::seq_lib::group_to_multiset_ensures;
        }
        while k < self.missing_entries.len()
            invariant
                target < quests@.len(),
                g2 == group_views(quests@),
                k <= self.missing_entries@.len(),
                mv == entry_views(self.missing_entries@),
                pair_views(sorted@).to_multiset() == mv.take(k as int).to_multiset(),
                path_sorted(pair_views(sorted@)),
            decreases self.missing_entries@.len() - k,
        {
            let (key, line) = self.missing_entries.entry(k);
            let e = (copy_string(key), line.clone());
            let ghost ev = (e.0@, e.1@);
            proof {
                assert(ev == mv[k as int]);
            }
            let mut j: usize = 0;
            let mut stop = false;
            while j < sorted.len() && !stop
                invariant
                    j <= sorted@.len(),
                    ev.0 == e.0@,
                    forall|q: int| 0 <= q < j ==> !crate::paths::std_path_lt(ev.0, #[trigger] sorted@[q].0@),
                    stop ==> j < sorted@.len() && crate::paths::std_path_lt(ev.0, sorted@[j as int].0@)
                        && !crate::paths::std_path_lt(sorted@[j as int].0@, ev.0),
                decreases sorted@.len() - j + if stop { 0int } else { 1int },
            {
                if crate::paths::path_less(e.0.as_str(), sorted[j].0.as_str()) {
                    stop = true;
                } else {
                    j = j + 1;
                }
            }
            let ghost before = pair_views(sorted@);
            let ghost sorted_old = sorted@;
            assert(path_sorted(before));
            sorted.insert(j, e);
            proof {
                broadcast use vstd::seq_lib::group_to_multiset_ensures;
                assert(pair_views(sorted@) =~= before.insert(j as int, ev));
                vstd::seq_lib::to_multiset_insert(before, j as int, ev);
                assert(mv.take(k + 1) =~= mv.take(k as int).push(ev));
                let ps = pair_views(sorted@);
                assert forall|a: int, b: int| 0 <= a && b == a + 1 && b < ps.len() implies !crate::paths::std_path_lt(
                    #[trigger] ps[b].0,
                    #[trigger] ps[a].0,
                ) by {
                    if a + 1 < j {
                        assert(ps[a] == before[a] && ps[a + 1] == before[a + 1]);
                        assert(!crate::paths::std_path_lt(before[a + 1].0, before[a].0));
                    } else if a + 1 == j {
                        assert(ps[a] == before[a]);
                        assert(before[a].0 == sorted_old[a].0@);
                        assert(!crate::paths::std_path_lt(ev.0, sorted_old[a].0@));
                    } else if a == j {
                        assert(ps[a + 1] == before[a as int]);
                        assert(before[a].0 == sorted_old[a].0@);
                    } else {
                        assert(ps[a] == before[a - 1] && ps[a + 1] == before[a]);
                        assert(!crate::paths::std_path_lt(before[a].0, before[a - 1].0));
                    }
                }
            }
            k = k + 1;
        }
        assert(mv.take(mv.len() as int) =~= mv);
        let mut g = quests.remove(target);
        let ghost base = line_views(g@);
        let mut q: usize = 0;
        while q < sorted.len()
            invariant
                q <= sorted@.len(),
                line_views(g@) == base + seconds(pair_views(sorted@)).take(q as int),
            decreases sorted@.len() - q,
        {
            let l = sorted[q].1.clone();
            let ghost before = line_views(g@);
            g.push(l);
            proof {
                assert(line_views(g@) =~= before.push(l@));
                assert(seconds(pair_views(sorted@)).take(q + 1) =~= seconds(pair_views(sorted@)).take(q as int).push(l@));
            }
            q = q + 1;
        }
        proof {
            assert(seconds(pair_views(sorted@)).take(sorted@.len() as int) =~= seconds(pair_views(sorted@)));
        }
        let ghost rest = quests@;
        quests.insert(target, g);
        proof {
            assert(group_views(quests@) =~= g2.update(target as int, base + seconds(pair_views(sorted@))));
            assert(path_sorted(pair_views(sorted@)));
        }
        quests
    }

    /// The text of the index file for `quest_lines` (see [`index_text`]).
    pub fn render_index(&self, quest_lines: &Vec<Vec<IndexLine>>) -> (r: String)
        requires
            labels_ok_nested(group_views(quest_lines@)),
            max_label(flatten_lines(group_views(quest_lines@)), |l: IndexLineView| label_width(l)) < usize::MAX,
        ensures
            r@ == index_text(group_views(quest_lines@)),
    {
        let ghost gv = group_views(quest_lines@);
        let pad = widest_label(quest_lines);
        // the sections
        let mut out = String::new();
        let mut a: usize = 0;
        assert(sections_text(gv.take(0), pad as nat) =~= Seq::<char>::empty());
        while a < quest_lines.len()
            invariant
                a <= quest_lines@.len(),
                gv == group_views(quest_lines@),
                labels_ok_nested(gv),
                pad < usize::MAX,
                out@ == sections_text(gv.take(a as int), pad as nat),
            decreases quest_lines.len() - a,
        {
            let q = &quest_lines[a];
            let ghost qv = gv[a as int];
            let ghost head = out@;
            proof {
                assert(qv == line_views(q@));
                assert(gv.take(a + 1).drop_last() =~= gv.take(a as int));
            }
            if q.len() > 0 {
                proof {
                    assert(q@[0]@ == qv[0]);
                }
                let h = q[0].get_render_line(pad);
                push_str(&mut out, h.as_str());
                push_char(&mut out, '\n');
                push_char(&mut out, '\n');
                let ghost mid = out@;
                let mut b: usize = 1;
                assert(lines_text(qv.skip(1).take(0), pad as nat) =~= Seq::<char>::empty());
                while b < q.len()
                    invariant
                        1 <= b <= q@.len(),
                        qv == line_views(q@),
                        a < gv.len(),
                        qv == gv[a as int],
                        labels_ok_nested(gv),
                        pad < usize::MAX,
                        out@ == mid + lines_text(qv.skip(1).take(b - 1), pad as nat),
                    decreases q@.len() - b,
                {
                    proof {
                        assert(q@[b as int]@ == qv[b as int]);
                        assert(qv.skip(1).take(b as int).drop_last() =~= qv.skip(1).take(b - 1));
                        assert(qv.skip(1).take(b as int).last() == qv[b as int]);
                    }
                    let line = q[b].get_render_line(pad);
                    push_str(&mut out, line.as_str());
                    push_char(&mut out, '\n');
                    b = b + 1;
                }
                proof {
                    assert(qv.skip(1).take(qv.len() - 1) =~= qv.skip(1));
                }
            }
            push_char(&mut out, '\n');
            proof {
                assert(out@ =~= head + section_text(qv, pad as nat));
            }
            a = a + 1;
        }
        proof {
            assert(gv.take(gv.len() as int) =~= gv);
        }
        // one line feed at the end
        let v = to_chars(out.as_str());
        let mut e = v.len();
        assert(v@.take(v@.len() as int) =~= v@);
        while e > 0 && v[e - 1] == '\n'
            invariant
                e <= v@.len(),
                trim_end_newlines(v@.take(e as int)) == trim_end_newlines(v@),
            decreases e,
        {
            proof {
                assert(v@.take(e as int).drop_last() =~= v@.take(e - 1));
            }
            e = e - 1;
        }
        assert(v@.take(v@.len() as int) =~= v@);
        let mut res = string_from_range(&v, 0, e);
        push_char(&mut res, '\n');
        proof {
            assert(v@.subrange(0, e as int) =~= v@.take(e as int));
        }
        res
    }

    /// The text of the index file for `quest_lines` (see [`index_text`]);
    /// `None` when a task line's label holds a character that no label may.
    pub fn write_file(&self, quest_lines: &Vec<Vec<IndexLine>>) -> (r: Option<String>)
        ensures
            match r {
                Some(t) => labels_ok_nested(group_views(quest_lines@)) && t@ == index_text(group_views(quest_lines@)),
                None => !labels_ok_nested(group_views(quest_lines@)) || max_label(
                    flatten_lines(group_views(quest_lines@)),
                    |l: IndexLineView| label_width(l),
                ) >= usize::MAX,
            },
    {
        let ghost gv = group_views(quest_lines@);
        let mut a: usize = 0;
        while a < quest_lines.len()
            invariant
                a <= quest_lines@.len(),
                gv == group_views(quest_lines@),
                forall|i: int, j: int| 0 <= i < a && 0 <= j < gv[i].len() && (#[trigger] gv[i][j]).is_task ==> label_ok(
                    raw_label_spec(gv[i][j]),
                ),
            decreases quest_lines.len() - a,
        {
            let mut b: usize = 0;
            while b < quest_lines[a].len()
                invariant
                    a < quest_lines@.len(),
                    b <= quest_lines@[a as int]@.len(),
                    gv == group_views(quest_lines@),
                    forall|i: int, j: int| 0 <= i < a && 0 <= j < gv[i].len() && (#[trigger] gv[i][j]).is_task ==> label_ok(
                        raw_label_spec(gv[i][j]),
                    ),
                    forall|j: int| 0 <= j < b && (#[trigger] gv[a as int][j]).is_task ==> label_ok(
                        raw_label_spec(gv[a as int][j]),
                    ),
                decreases quest_lines@[a as int]@.len() - b,
            {
                let l = &quest_lines[a][b];
                proof {
                    assert(gv[a as int][b as int] == l@);
                }
                if l.is_task && l.try_get_label().is_none() {
                    return None;
                }
                b = b + 1;
            }
            a = a + 1;
        }
        let pad = widest_label(quest_lines);
        if pad == usize::MAX {
            return None;
        }
        Some(self.render_index(quest_lines))
    }
}

/// The width of the widest label of the task lines of the sections.
fn widest_label(quest_lines: &Vec<Vec<IndexLine>>) -> (pad: usize)
    requires
        labels_ok_nested(group_views(quest_lines@)),
    ensures
        pad == max_label(flatten_lines(group_views(quest_lines@)), |l: IndexLineView| label_width(l)),
{
    let ghost gv = group_views(quest_lines@);
    let ghost lw = |l: IndexLineView| label_width(l);
    // the widest label
    let mut pad: usize = 0;
    let mut a: usize = 0;
    assert(gv.take(0) =~= Seq::<Seq<IndexLineView>>::empty());
    while a < quest_lines.len()
        invariant
            a <= quest_lines@.len(),
            gv == group_views(quest_lines@),
            lw == (|l: IndexLineView| label_width(l)),
            labels_ok_nested(gv),
            pad == max_label(flatten_lines(gv.take(a as int)), lw),
        decreases quest_lines.len() - a,
    {
        let ghost prefix = flatten_lines(gv.take(a as int));
        let mut b: usize = 0;
        assert(prefix + gv[a as int].take(0) =~= prefix);
        while b < quest_lines[a].len()
            invariant
                a < quest_lines@.len(),
                b <= quest_lines@[a as int]@.len(),
                gv == group_views(quest_lines@),
                lw == (|l: IndexLineView| label_width(l)),
                labels_ok_nested(gv),
                prefix == flatten_lines(gv.take(a as int)),
                pad == max_label(prefix + gv[a as int].take(b as int), lw),
            decreases quest_lines@[a as int]@.len() - b,
        {
            let l = &quest_lines[a][b];
            proof {
                assert(gv[a as int][b as int] == l@);
                assert((prefix + gv[a as int].take(b + 1)).drop_last() =~= prefix + gv[a as int].take(b as int));
                assert((prefix + gv[a as int].take(b + 1)).last() == l@);
            }
            if l.is_task {
                proof {
                    assert(label_ok(raw_label_spec(gv[a as int][b as int])));
                }
                let w = l.get_label().as_str().unicode_len();
                if w > pad {
                    pad = w;
                }
            }
            b = b + 1;
        }
        proof {
            assert(gv.take(a + 1).drop_last() =~= gv.take(a as int));
            assert(gv[a as int].take(gv[a as int].len() as int) =~= gv[a as int]);
        }
        a = a + 1;
    }
    proof {
        assert(gv.take(gv.len() as int) =~= gv);
    }
    pad
}

/// Whether the labels of all task lines of the sections are valid.
pub open spec fn labels_ok_nested(gs: Seq<Seq<IndexLineView>>) -> bool {
    forall|i: int, j: int| 0 <= i < gs.len() && 0 <= j < gs[i].len() && (#[trigger] gs[i][j]).is_task ==> label_ok(
        raw_label_spec(gs[i][j]),
    )
}

pub open spec fn pair_views(es: Seq<(String, IndexLine)>) -> Seq<(Seq<char>, IndexLineView)> {
    Seq::new(es.len(), |i: int| (es[i].0@, es[i].1@))
}


/// The title of the first line that, trimmed, starts with `# `, from line
/// `i` on: the rest of it, trimmed.
pub open spec fn md_title_from(ls: Seq<Seq<char>>, i: int) -> Option<Seq<char>>
    decreases ls.len() - i,
{
    if i < 0 || i >= ls.len() {
        None
    } else if starts_with_spec_local(trim_spec(ls[i]), seq!['#', ' ']) {
        Some(trim_spec(trim_spec(ls[i]).skip(2)))
    } else {
        md_title_from(ls, i + 1)
    }
}

/// The title of a Markdown text: its first `# ` line (trimmed), without the
/// mark; a placeholder when it has none.
pub fn title_from_markdown(content: &str) -> (r: String)
    ensures
        r@ == match md_title_from(crate::strs::lines_spec(content@), 0) {
            Some(t) => t,
            None => "NÃO TEM TÍTULO"@,
        },
{
    let lines = crate::strs::text_lines(content);
    let ghost lv = strings_view(lines@);
    let mut i: usize = 0;
    while i < lines.len()
        invariant
            i <= lines@.len(),
            lv == strings_view(lines@),
            lv == crate::strs::lines_spec(content@),
            md_title_from(lv, i as int) == md_title_from(lv, 0),
        decreases lines.len() - i,
    {
        let t = trim(lines[i].as_str());
        proof {
            assert(lv[i as int] == lines@[i as int]@);
        }
        let n = t.as_str().unicode_len();
        if n >= 2 && t.as_str().get_char(0) == '#' && t.as_str().get_char(1) == ' ' {
            let rest = t.as_str().substring_char(2, n);
            proof {
                assert(t@.take(2) =~= seq!['#', ' ']);
                assert(rest@ =~= t@.skip(2));
            }
            return trim(rest);
        }
        proof {
            if starts_with_spec_local(t@, seq!['#', ' ']) {
                assert(t@[0] == t@.take(2)[0]);
                assert(t@[1] == t@.take(2)[1]);
            }
        }
        i = i + 1;
    }
    "NÃO TEM TÍTULO".to_string()
}

} // verus!
