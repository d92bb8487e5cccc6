//! Reading a quest from a heading line of an index file.
//!
//! A quest heading is `## ` or `### ` followed by words. Words starting with
//! `@` give the key, `+` a skill (`+skill` or `+skill:value`), `=` a
//! language, `%` the completion threshold and `!` a required quest; the
//! other words make the title.

use crate::chars::{copy_string, push_char, push_str, to_chars};
use crate::game::quest::Quest;
use crate::game::tree_item::{full_key_of, strip_at, TreeItemView};
use crate::keymap::{insert_entry, KeyMap};
use crate::md_link::{get_md_link, link_chars};
use crate::strs::{
    join, join_spec, lemma_strings_view_push, parse_i32, parse_i32_spec, replace_all, replace_all_spec,
    split_char, split_char_spec, split_once, split_once_spec, starts_with, starts_with_spec,
    strings_view, trim, trim_spec,
};
use crate::unicode::lower_form;
use vstd::prelude::*;

verus! {

/// The words of a heading: the pieces between single spaces that are not
/// empty, each trimmed.
pub open spec fn heading_words(pieces: Seq<Seq<char>>) -> Seq<Seq<char>>
    decreases pieces.len(),
{
    if pieces.len() == 0 {
        Seq::empty()
    } else {
        let r = heading_words(pieces.drop_last());
        if pieces.last().len() > 0 {
            r.push(trim_spec(pieces.last()))
        } else {
            r
        }
    }
}

/// The words of a heading's text.
pub open spec fn words_of(line: Seq<char>) -> Seq<Seq<char>> {
    heading_words(split_char_spec(line, ' '))
}

/// The words that start with `c`, without it.
pub open spec fn tagged(ws: Seq<Seq<char>>, c: char) -> Seq<Seq<char>>
    decreases ws.len(),
{
    if ws.len() == 0 {
        Seq::empty()
    } else {
        let r = tagged(ws.drop_last(), c);
        if ws.last().len() > 0 && ws.last()[0] == c {
            r.push(ws.last().skip(1))
        } else {
            r
        }
    }
}

pub open spec fn is_tag_char(c: char) -> bool {
    c == '@' || c == '%' || c == '=' || c == '+' || c == '!'
}

/// The words that start with no tag character.
pub open spec fn untagged(ws: Seq<Seq<char>>) -> Seq<Seq<char>>
    decreases ws.len(),
{
    if ws.len() == 0 {
        Seq::empty()
    } else {
        let r = untagged(ws.drop_last());
        if ws.last().len() > 0 && is_tag_char(ws.last()[0]) {
            r
        } else {
            r.push(ws.last())
        }
    }
}

/// The skills that skill words give: `name:value` sets `name` to the value,
/// a bare `name` sets it to 1; a later word replaces an earlier value.
pub open spec fn skills_from(ss: Seq<Seq<char>>) -> Seq<(Seq<char>, i32)>
    decreases ss.len(),
{
    if ss.len() == 0 {
        Seq::empty()
    } else {
        let acc = skills_from(ss.drop_last());
        match split_once_spec(ss.last(), ':') {
            Some((k, v)) => insert_entry(acc, k, parse_i32_spec(v).unwrap()),
            None => insert_entry(acc, ss.last(), 1),
        }
    }
}

/// Whether every `name:value` skill word has a number as its value.
pub open spec fn skills_parse(ss: Seq<Seq<char>>) -> bool {
    forall|i: int|
        0 <= i < ss.len() ==> (#[trigger] split_once_spec(ss[i], ':') matches Some((k, v)) ==> parse_i32_spec(
            v,
        ) is Some)
}

/// The required keys, each as `remote@key`.
pub open spec fn required_keys(remote: Seq<char>, ks: Seq<Seq<char>>) -> Seq<Seq<char>> {
    Seq::new(ks.len(), |i: int| full_key_of(remote, ks[i]))
}

/// The text of a heading line: after `## ` or `### `, with comment marks and
/// backquotes turned into spaces; `None` for any other line.
pub open spec fn heading_body(line: Seq<char>) -> Option<Seq<char>> {
    let rest = if starts_with_spec(line, seq!['#', '#', ' ']) {
        Some(line.skip(3))
    } else if starts_with_spec(line, seq!['#', '#', '#', ' ']) {
        Some(line.skip(4))
    } else {
        None
    };
    match rest {
        Some(t) => Some(
            replace_all_spec(
                replace_all_spec(replace_all_spec(t, "<!--"@, seq![' ']), "-->"@, seq![' ']),
                seq!['`'],
                seq![' '],
            ),
        ),
        None => None,
    }
}

/// Whether a line can be read without failing: when it is a heading, its
/// skill values are numbers.
pub open spec fn quest_line_ok(line: Seq<char>) -> bool {
    heading_body(line) matches Some(b) ==> skills_parse(tagged(words_of(b), '+'))
}

/// Reads quests from heading lines of one source.
#[derive(Debug)]
pub struct QuestParser {
    pub source_alias: String,
    pub quest: Quest,
    pub line: String,
    pub line_num: usize,
    pub filename: String,
}

/// The words of `line`.
fn heading_words_exec(line: &str) -> (r: Vec<String>)
    ensures
        strings_view(r@) == words_of(line@),
{
    let pieces = split_char(line, ' ');
    let ghost pv = strings_view(pieces@);
    let mut ws: Vec<String> = Vec::new();
    let mut i: usize = 0;
    assert(strings_view(ws@) =~= Seq::<Seq<char>>::empty());
    assert(pv.take(0) =~= Seq::<Seq<char>>::empty());
    while i < pieces.len()
        invariant
            i <= pieces@.len(),
            pv == strings_view(pieces@),
            pv == split_char_spec(line@, ' '),
            strings_view(ws@) == heading_words(pv.take(i as int)),
        decreases pieces.len() - i,
    {
        proof {
            assert(pv.take(i + 1).drop_last() =~= pv.take(i as int));
            assert(pv[i as int] == pieces@[i as int]@);
        }
        if pieces[i].as_str().unicode_len() > 0 {
            let t = trim(pieces[i].as_str());
            let ghost before = ws@;
            ws.push(t);
            proof {
                lemma_strings_view_push(before, t);
            }
        }
        i = i + 1;
    }
    assert(pv.take(pv.len() as int) =~= pv);
    ws
}

/// The words of `ws` starting with `c`, without it.
fn tagged_exec(ws: &Vec<String>, c: char) -> (r: Vec<String>)
    ensures
        strings_view(r@) == tagged(strings_view(ws@), c),
{
    let ghost wv = strings_view(ws@);
    let mut out: Vec<String> = Vec::new();
    let mut i: usize = 0;
    assert(strings_view(out@) =~= Seq::<Seq<char>>::empty());
    assert(wv.take(0) =~= Seq::<Seq<char>>::empty());
    while i < ws.len()
        invariant
            i <= ws@.len(),
            wv == strings_view(ws@),
            strings_view(out@) == tagged(wv.take(i as int), c),
        decreases ws.len() - i,
    {
        proof {
            assert(wv.take(i + 1).drop_last() =~= wv.take(i as int));
            assert(wv[i as int] == ws@[i as int]@);
        }
        let w = ws[i].as_str();
        let n = w.unicode_len();
        if n > 0 && w.get_char(0) == c {
            let rest = w.substring_char(1, n).to_string();
            assert(rest@ =~= w@.skip(1));
            let ghost before = out@;
            out.push(rest);
            proof {
                lemma_strings_view_push(before, rest);
            }
        }
        i = i + 1;
    }
    assert(wv.take(wv.len() as int) =~= wv);
    out
}

/// The words of `ws` that start with no tag character.
fn untagged_exec(ws: &Vec<String>) -> (r: Vec<String>)
    ensures
        strings_view(r@) == untagged(strings_view(ws@)),
{
    let ghost wv = strings_view(ws@);
    let mut out: Vec<String> = Vec::new();
    let mut i: usize = 0;
    assert(strings_view(out@) =~= Seq::<Seq<char>>::empty());
    assert(wv.take(0) =~= Seq::<Seq<char>>::empty());
    while i < ws.len()
        invariant
            i <= ws@.len(),
            wv == strings_view(ws@),
            strings_view(out@) == untagged(wv.take(i as int)),
        decreases ws.len() - i,
    {
        proof {
            assert(wv.take(i + 1).drop_last() =~= wv.take(i as int));
            assert(wv[i as int] == ws@[i as int]@);
        }
        let w = ws[i].as_str();
        let n = w.unicode_len();
        let tag = n > 0 && {
            let c = w.get_char(0);
            c == '@' || c == '%' || c == '=' || c == '+' || c == '!'
        };
        if !tag {
            let ghost before = out@;
            let copy = copy_string(&ws[i]);
            out.push(copy);
            proof {
                lemma_strings_view_push(before, copy);
            }
        }
        i = i + 1;
    }
    assert(wv.take(wv.len() as int) =~= wv);
    out
}

/// Whether `line` can be read without failing (see [`quest_line_ok`]): any
/// line but a heading whose `+name:value` skill has a value that is no
/// number.
pub fn quest_line_readable(line: &str) -> (r: bool)
    ensures
        r == quest_line_ok(line@),
{
    proof {
        reveal_strlit("## ");
        assert("## "@ =~= seq!['#', '#', ' ']);
        reveal_strlit("### ");
        assert("### "@ =~= seq!['#', '#', '#', ' ']);
        reveal_strlit("<!--");
        reveal_strlit("-->");
        reveal_strlit("`");
        reveal_strlit(" ");
        assert("`"@ =~= seq!['`']);
        assert(" "@ =~= seq![' ']);
    }
    let n = line.unicode_len();
    let rest: String;
    if starts_with(line, "## ") {
        rest = line.substring_char(3, n).to_string();
        assert(rest@ =~= line@.skip(3));
    } else if starts_with(line, "### ") {
        rest = line.substring_char(4, n).to_string();
        assert(rest@ =~= line@.skip(4));
    } else {
        return true;
    }
    let a = replace_all(rest.as_str(), "<!--", " ");
    let b = replace_all(a.as_str(), "-->", " ");
    let c = replace_all(b.as_str(), "`", " ");
    assert(heading_body(line@) == Some(c@));
    let words = heading_words_exec(c.as_str());
    let skills = tagged_exec(&words, '+');
    let ghost sv = strings_view(skills@);
    let mut i: usize = 0;
    while i < skills.len()
        invariant
            i <= skills@.len(),
            sv == strings_view(skills@),
            sv == tagged(words_of(heading_body(line@).unwrap()), '+'),
            heading_body(line@) is Some,
            forall|j: int|
                0 <= j < i ==> (#[trigger] split_once_spec(sv[j], ':') matches Some((k, v)) ==> parse_i32_spec(
                    v,
                ) is Some),
        decreases skills.len() - i,
    {
        proof {
            assert(sv[i as int] == skills@[i as int]@);
        }
        match split_once(skills[i].as_str(), ':') {
            Some((k, v)) => {
                if parse_i32(v.as_str()).is_none() {
                    proof {
                        assert(split_once_spec(sv[i as int], ':') == Some((k@, v@)));
                    }
                    return false;
                }
            },
            None => {},
        }
        i = i + 1;
    }
    true
}

impl QuestParser {
    /// A parser of quests of the source `source_alias`.
    pub fn new(source_alias: String) -> (r: Self)
        ensures
            r.source_alias@ == source_alias@,
            r.quest.tree@ == (TreeItemView { remote_name: source_alias@, key: Seq::empty(), title: Seq::empty() }),
            r.quest.skills@.len() == 0,
            r.quest.languages@.len() == 0,
            r.quest.requires@.len() == 0,
            r.quest.min_percent_completion == 50,
            r.line@ == Seq::<char>::empty(),
            r.line_num == 0,
    {
        let mut quest = Quest::new(String::new(), String::new());
        quest.tree.set_remote_name(source_alias.as_str());
        proof {
            assert(strip_at(Seq::<char>::empty()) =~= Seq::<char>::empty());
        }
        QuestParser { source_alias, quest, line: String::new(), line_num: 0, filename: String::new() }
    }

    /// The quest read so far; without a key it gets the anchor of its title.
    pub fn finish_quest(&self) -> (r: Quest)
        ensures
            r.tree@.title == self.quest.tree@.title,
            r.tree@.remote_name == self.quest.tree@.remote_name,
            r.tree@.key == if self.quest.tree@.key.len() == 0 {
                strip_at(link_chars(lower_form(self.quest.tree@.title)))
            } else {
                self.quest.tree@.key
            },
            r.skills@ == self.quest.skills@,
            strings_view(r.languages@) == strings_view(self.quest.languages@),
            strings_view(r.requires@) == strings_view(self.quest.requires@),
            r.min_percent_completion == self.quest.min_percent_completion,
            r.__tasks@.len() == self.quest.__tasks@.len(),
            r.line@ == self.quest.line@,
            r.line_number == self.quest.line_number,
    {
        let mut quest = self.quest.clone();
        if quest.tree.get_key().unicode_len() == 0 {
            let title = quest.tree.get_title().to_string();
            quest.tree.set_key(get_md_link(title));
        }
        quest
    }

    /// Reads the current line as a heading: on `## ` or `### ` the quest's
    /// title and tags are taken from the rest of the line and the result is
    /// `true`; any other line gives `false` and changes nothing.
    pub fn match_full_pattern(&mut self) -> (r: bool)
        requires
            quest_line_ok(old(self).line@),
        ensures
            r == (heading_body(old(self).line@) is Some),
            !r ==> final(self).quest.tree@ == old(self).quest.tree@,
            r ==> processed(
                &old(self).quest,
                &final(self).quest,
                heading_body(old(self).line@).unwrap(),
                final(self).quest.tree@.title,
            ),
            final(self).line@ == old(self).line@,
            final(self).line_num == old(self).line_num,
            final(self).quest.line@ == old(self).quest.line@,
            final(self).quest.line_number == old(self).quest.line_number,
    {
        let rest: String;
        if starts_with(self.line.as_str(), "## ") {
            proof {
                reveal_strlit("## ");
                assert("## "@ =~= seq!['#', '#', ' ']);
            }
            let n = self.line.as_str().unicode_len();
            rest = self.line.as_str().substring_char(3, n).to_string();
            assert(rest@ =~= self.line@.skip(3));
        } else if starts_with(self.line.as_str(), "### ") {
            proof {
                reveal_strlit("## ");
                assert("## "@ =~= seq!['#', '#', ' ']);
                reveal_strlit("### ");
                assert("### "@ =~= seq!['#', '#', '#', ' ']);
            }
            let n = self.line.as_str().unicode_len();
            rest = self.line.as_str().substring_char(4, n).to_string();
            assert(rest@ =~= self.line@.skip(4));
        } else {
            proof {
                reveal_strlit("## ");
                assert("## "@ =~= seq!['#', '#', ' ']);
                reveal_strlit("### ");
                assert("### "@ =~= seq!['#', '#', '#', ' ']);
            }
            return false;
        }
        proof {
            reveal_strlit("<!--");
            reveal_strlit("-->");
            reveal_strlit("`");
            reveal_strlit(" ");
            assert("`"@ =~= seq!['`']);
            assert(" "@ =~= seq![' ']);
        }
        let a = replace_all(rest.as_str(), "<!--", " ");
        let b = replace_all(a.as_str(), "-->", " ");
        let c = replace_all(b.as_str(), "`", " ");
        let title = self.process_words(c.as_str());
        self.quest.tree.set_title(title);
        true
    }

    /// Reads the words of a heading's text into the quest (see the module
    /// documentation) and gives back the title words joined by spaces.
    pub fn process_words(&mut self, line: &str) -> (r: String)
        requires
            skills_parse(tagged(words_of(line@), '+')),
        ensures
            processed(&old(self).quest, &final(self).quest, line@, r@),
            final(self).line@ == old(self).line@,
            final(self).line_num == old(self).line_num,
            final(self).quest.tree@.title == old(self).quest.tree@.title,
            final(self).quest.line@ == old(self).quest.line@,
            final(self).quest.line_number == old(self).quest.line_number,
    {
        let words = heading_words_exec(line);
        let ghost ws = words_of(line@);
        // key
        let keys = tagged_exec(&words, '@');
        if keys.len() > 0 {
            let k = copy_string(&keys[0]);
            let mut at = String::new();
            push_char(&mut at, '@');
            push_str(&mut at, k.as_str());
            proof {
                assert(strip_at(at@) =~= k@);
            }
            self.quest.tree.set_key(at);
        }
        // skills
        let skills = tagged_exec(&words, '+');
        let ghost sv = strings_view(skills@);
        if skills.len() > 0 {
            let mut m: KeyMap<i32> = KeyMap::new();
            let mut i: usize = 0;
            assert(sv.take(0) =~= Seq::<Seq<char>>::empty());
            while i < skills.len()
                invariant
                    i <= skills@.len(),
                    sv == strings_view(skills@),
                    sv == tagged(ws, '+'),
                    skills_parse(sv),
                    m@ == skills_from(sv.take(i as int)),
                decreases skills.len() - i,
            {
                proof {
                    assert(sv.take(i + 1).drop_last() =~= sv.take(i as int));
                    assert(sv[i as int] == skills@[i as int]@);
                }
                match split_once(skills[i].as_str(), ':') {
                    Some((k, v)) => {
                        proof {
                            assert(split_once_spec(sv[i as int], ':') == Some((k@, v@)));
                        }
                        let value = parse_i32(v.as_str());
                        m.insert(k, value.unwrap());
                    },
                    None => {
                        m.insert(copy_string(&skills[i]), 1);
                    },
                }
                i = i + 1;
            }
            assert(sv.take(sv.len() as int) =~= sv);
            self.quest.skills = m;
        }
        if self.quest.skills.len() == 0 {
            let mut m: KeyMap<i32> = KeyMap::new();
            m.insert(self.quest.tree.get_key().to_string(), 1);
            self.quest.skills = m;
        }
        // languages
        let langs = tagged_exec(&words, '=');
        if langs.len() > 0 {
            self.quest.languages = langs;
        }
        // threshold
        let qmin = tagged_exec(&words, '%');
        if qmin.len() > 0 {
            match parse_i32(qmin[0].as_str()) {
                Some(value) => {
                    self.quest.min_percent_completion = value;
                },
                None => {
                    self.quest.min_percent_completion = 50;
                },
            }
        }
        // requirements
        let required = tagged_exec(&words, '!');
        let ghost rv = strings_view(required@);
        let ghost req0 = strings_view(self.quest.requires@);
        let ghost remote = self.quest.tree@.remote_name;
        let ghost qt = self.quest.tree@;
        let ghost qs = self.quest.skills@;
        let ghost ql = self.quest.languages@;
        let ghost qm = self.quest.min_percent_completion;
        let mut i: usize = 0;
        assert(req0 + required_keys(remote, rv.take(0)) =~= req0);
        while i < required.len()
            invariant
                i <= required@.len(),
                rv == strings_view(required@),
                strings_view(self.quest.requires@) == req0 + required_keys(remote, rv.take(i as int)),
                self.quest.tree@.remote_name == remote,
                self.quest.tree@ == qt,
                self.quest.skills@ == qs,
                self.quest.languages@ == ql,
                self.quest.min_percent_completion == qm,
                self.line == old(self).line,
                self.line_num == old(self).line_num,
                self.quest.line == old(self).quest.line,
                self.quest.line_number == old(self).quest.line_number,
            decreases required.len() - i,
        {
            self.quest.add_require_key(copy_string(&required[i]));
            proof {
                assert(rv[i as int] == required@[i as int]@);
                assert(req0 + required_keys(remote, rv.take(i + 1)) =~= (req0 + required_keys(
                    remote,
                    rv.take(i as int),
                )).push(full_key_of(remote, rv[i as int])));
            }
            i = i + 1;
        }
        assert(rv.take(rv.len() as int) =~= rv);
        // title
        let rest = untagged_exec(&words);
        let r = join(&rest, " ");
        proof {
            reveal_strlit(" ");
            assert(" "@ =~= seq![' ']);
            let keys = tagged(ws, '@');
            let key = if keys.len() > 0 { keys[0] } else { old(self).quest.tree@.key };
            assert(self.quest.tree@.key == key);
            assert(self.quest.tree@.remote_name == old(self).quest.tree@.remote_name);
            let plus = tagged(ws, '+');
            let s1 = if plus.len() > 0 { skills_from(plus) } else { old(self).quest.skills@ };
            assert(self.quest.skills@ == if s1.len() == 0 { seq![(key, 1i32)] } else { s1 });
            let langs = tagged(ws, '=');
            assert(strings_view(self.quest.languages@) == if langs.len() > 0 { langs } else { strings_view(old(self).quest.languages@) });
            assert(r@ == join_spec(untagged(ws), seq![' ']));
        }
        r
    }

    /// Reads `line` (number `line_num` of `filename`): a heading gives the
    /// finished quest, any other line `None`.
    pub fn parse_quest(&mut self, filename: &str, line: String, line_num: usize) -> (r: Option<Quest>)
        requires
            quest_line_ok(line@),
        ensures
            r is Some <==> heading_body(line@) is Some,
            r is Some ==> read_quest(&old(self).quest, &r.unwrap(), heading_body(line@).unwrap()),
            r is Some ==> r.unwrap().line@ == line@ && r.unwrap().line_number == line_num,
            final(self).line@ == line@,
            final(self).line_num == line_num,
    {
        self.line = line;
        self.line_num = line_num;
        self.filename = filename.to_string();
        self.quest.line = copy_string(&self.line);
        self.quest.line_number = self.line_num;
        self.quest.remote_name = String::new();
        if self.match_full_pattern() {
            return Some(self.finish_quest());
        }
        None
    }
}

/// The quest that a heading with text `text` gives, read into a quest with
/// key `key0`, source `remote`, skills `skills0`, languages `langs0`,
/// threshold `min0` and required keys `reqs0`: as [`processed`] says, with
/// the title as its title and, when no key was read, the anchor of the title
/// as its key.
pub open spec fn read_quest_from(
    key0: Seq<char>,
    remote: Seq<char>,
    skills0: Seq<(Seq<char>, i32)>,
    langs0: Seq<Seq<char>>,
    min0: i32,
    reqs0: Seq<Seq<char>>,
    q: &Quest,
    text: Seq<char>,
) -> bool {
    let ws = words_of(text);
    let keys = tagged(ws, '@');
    let key = if keys.len() > 0 {
        keys[0]
    } else {
        key0
    };
    let title = join_spec(untagged(ws), seq![' ']);
    let plus = tagged(ws, '+');
    let s1 = if plus.len() > 0 {
        skills_from(plus)
    } else {
        skills0
    };
    let langs = tagged(ws, '=');
    let pct = tagged(ws, '%');
    &&& q.tree@.title == title
    &&& q.tree@.key == if key.len() == 0 {
        strip_at(link_chars(lower_form(title)))
    } else {
        key
    }
    &&& q.tree@.remote_name == remote
    &&& q.skills@ == if s1.len() == 0 {
        seq![(key, 1i32)]
    } else {
        s1
    }
    &&& strings_view(q.languages@) == if langs.len() > 0 {
        langs
    } else {
        langs0
    }
    &&& q.min_percent_completion == if pct.len() > 0 {
        match parse_i32_spec(pct[0]) {
            Some(v) => v,
            None => 50i32,
        }
    } else {
        min0
    }
    &&& strings_view(q.requires@) == reqs0 + required_keys(remote, tagged(ws, '!'))
}

/// The quest that a heading with text `text` gives, read into `q0` (see
/// [`read_quest_from`]).
pub open spec fn read_quest(q0: &Quest, q: &Quest, text: Seq<char>) -> bool {
    read_quest_from(
        q0.tree@.key,
        q0.tree@.remote_name,
        q0.skills@,
        strings_view(q0.languages@),
        q0.min_percent_completion,
        strings_view(q0.requires@),
        q,
        text,
    )
}

/// The quest that a heading with text `text` of the source `remote` gives
/// (see [`read_quest_from`]): read into a new quest.
pub open spec fn heading_quest(remote: Seq<char>, q: &Quest, text: Seq<char>) -> bool {
    read_quest_from(Seq::empty(), remote, Seq::empty(), Seq::empty(), 50, Seq::empty(), q, text)
}

/// The quest after reading the words of `text`, and `title` the title read.
pub open spec fn processed(q0: &Quest, q: &Quest, text: Seq<char>, title: Seq<char>) -> bool {
    let ws = words_of(text);
    let keys = tagged(ws, '@');
    let key = if keys.len() > 0 {
        keys[0]
    } else {
        q0.tree@.key
    };
    let plus = tagged(ws, '+');
    let s1 = if plus.len() > 0 {
        skills_from(plus)
    } else {
        q0.skills@
    };
    let langs = tagged(ws, '=');
    let pct = tagged(ws, '%');
    &&& q.tree@.key == key
    &&& q.tree@.remote_name == q0.tree@.remote_name
    &&& q.skills@ == if s1.len() == 0 {
        seq![(key, 1i32)]
    } else {
        s1
    }
    &&& strings_view(q.languages@) == if langs.len() > 0 {
        langs
    } else {
        strings_view(q0.languages@)
    }
    &&& q.min_percent_completion == if pct.len() > 0 {
        match parse_i32_spec(pct[0]) {
            Some(v) => v,
            None => 50i32,
        }
    } else {
        q0.min_percent_completion
    }
    &&& strings_view(q.requires@) == strings_view(q0.requires@) + required_keys(
        q0.tree@.remote_name,
        tagged(ws, '!'),
    )
    &&& title == join_spec(untagged(ws), seq![' '])
}

} // verus!
