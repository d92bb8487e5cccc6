//! A task of a quest: its identity, self-assessment, configuration, skills
//! and location, and how its rating is shown.

use crate::chars::{char_string, copy_string, push_char, push_str};
use crate::game::task_config::{TaskConfig, TaskEdit, TaskGrader, TaskLoss, TaskMain, TaskTest};
use crate::game::task_game::rate_color_spec;
use crate::game::task_info::{kv_spec, loaded, TaskSelfInfo};
use crate::game::task_location::{opt_view, TaskLocation};
use crate::game::tree_item::{TreeItem, TreeUi};
use crate::keymap::{insert_entry, lemma_str_view_insert, lookup, str_view, KeyMap};
use crate::strs::{
    contains_spec, contains_str, i32_to_string, int_decimal, pad_right, pad_right_exec, parse_i32,
    parse_i32_spec, split_char, split_char_spec, split_once, split_once_spec, split_whitespace,
    strings_view, trim, trim_spec, words,
};
use crate::text::{char_tokens, tokens_view, AddValue, Text};
use crate::unicode::nfc_form;
use vstd::prelude::*;

verus! {

/// The mark shown for a full rating.
pub const CHECK: &'static str = "✓";

/// The key that holds a task's position in its quest.
pub const STR_INDEX: &'static str = "idx";

/// The entries of a task's dictionary text `{k: v, k: v}`: the text between
/// the first and last character, cut at each `,`; each piece with a `:` is
/// cut at its first `:` and both halves trimmed, and a later key replaces
/// the value of an earlier one. Pieces without `:` are skipped.
pub open spec fn dict_entries(pieces: Seq<Seq<char>>) -> Seq<(Seq<char>, Seq<char>)>
    decreases pieces.len(),
{
    if pieces.len() == 0 {
        Seq::empty()
    } else {
        let acc = dict_entries(pieces.drop_last());
        match split_once_spec(pieces.last(), ':') {
            Some((k, v)) => insert_entry(acc, trim_spec(k), trim_spec(v)),
            None => acc,
        }
    }
}

/// The dictionary that a task's text holds.
pub open spec fn dict_spec(value: Seq<char>) -> Seq<(Seq<char>, Seq<char>)> {
    dict_entries(split_char_spec(value.subrange(1, value.len() - 1), ','))
}

/// The full title of a task: `@key title`, the key padded to `pad`
/// characters with `c`, unless the title already names `@key`.
pub open spec fn full_title_spec(title: Seq<char>, key: Seq<char>, pad: nat, c: char) -> Seq<char> {
    if contains_spec(title, seq!['@'] + key) {
        title
    } else {
        seq!['@'] + pad_right(key, pad, c) + seq![' '] + title
    }
}

/// The tokens of the rating mark of `value` against the minimum `min`: `x`
/// unrated, the number in its colour up to 9, the check mark at 10, `0`
/// above.
pub open spec fn rate_symbol_spec(value: i32, min: i32) -> Seq<(Seq<char>, Seq<char>)> {
    let color = seq![rate_color_spec(value as int, min as int)];
    if value == 0 {
        char_tokens(nfc_form(seq!['x']), Seq::empty())
    } else if value < min || value < 10 {
        char_tokens(nfc_form(int_decimal(value as int)), color)
    } else if value == 10 {
        char_tokens(nfc_form(CHECK@), color)
    } else {
        char_tokens(nfc_form(seq!['0']), Seq::empty())
    }
}

/// A task.
#[derive(Debug)]
pub struct Task {
    pub identity: TreeItem,
    pub ui: TreeUi,
    pub info: TaskSelfInfo,
    pub config: TaskConfig,
    pub main_idx: i32,
    pub skills: KeyMap<i32>,
    pub xp: i32,
    pub quest_key: String,
    pub __is_recheable: bool,
    pub default_min_value: i32,
    pub location: TaskLocation,
}

/// A task as values: every field by its view.
pub struct TaskData {
    pub identity: crate::game::tree_item::TreeItemView,
    pub ligature: Seq<(Seq<char>, Seq<char>)>,
    pub visible: bool,
    pub requirement_color: Seq<char>,
    pub rate: i32,
    pub study: i32,
    pub feedback: bool,
    pub friend: Seq<char>,
    pub guided: bool,
    pub ia_concept: bool,
    pub ia_problem: bool,
    pub ia_code: bool,
    pub ia_debug: bool,
    pub ia_refactor: bool,
    pub config: TaskConfig,
    pub main_idx: i32,
    pub skills: Seq<(Seq<char>, i32)>,
    pub xp: i32,
    pub quest_key: Seq<char>,
    pub reachable: bool,
    pub default_min_value: i32,
    pub target: Seq<char>,
    pub line_number: usize,
    pub line: Seq<char>,
    pub origin_folder: Option<Seq<char>>,
    pub workspace_folder: Option<Seq<char>>,
}

/// The values of a task.
pub open spec fn task_data(t: Task) -> TaskData {
    TaskData {
        identity: t.identity@,
        ligature: t.ui.ligature@,
        visible: t.ui.visible,
        requirement_color: t.ui.is_requirement_color@,
        rate: t.info.rate,
        study: t.info.study,
        feedback: t.info.feedback,
        friend: t.info.friend@,
        guided: t.info.guided,
        ia_concept: t.info.ia_concept,
        ia_problem: t.info.ia_problem,
        ia_code: t.info.ia_code,
        ia_debug: t.info.ia_debug,
        ia_refactor: t.info.ia_refactor,
        config: t.config,
        main_idx: t.main_idx,
        skills: t.skills@,
        xp: t.xp,
        quest_key: t.quest_key@,
        reachable: t.__is_recheable,
        default_min_value: t.default_min_value,
        target: t.location.target@,
        line_number: t.location.line_number,
        line: t.location.line@,
        origin_folder: opt_view(t.location.__origin_folder),
        workspace_folder: opt_view(t.location.__workspace_folder),
    }
}

impl Clone for Task {
    /// A copy with the same values.
    fn clone(&self) -> (r: Self)
        ensures
            task_data(r) == task_data(*self),
    {
        let skills = self.skills.clone();
        proof {
            assert forall|i: int| 0 <= i < self.skills@.len() implies #[trigger] skills@[i] == self.skills@[i] by {
                assert(cloned::<i32>(self.skills@[i].1, skills@[i].1));
            }
            assert(skills@ =~= self.skills@);
        }
        Task {
            identity: self.identity.clone(),
            ui: self.ui.clone(),
            info: self.info.clone(),
            config: self.config,
            main_idx: self.main_idx,
            skills,
            xp: self.xp,
            quest_key: copy_string(&self.quest_key),
            __is_recheable: self.__is_recheable,
            default_min_value: self.default_min_value,
            location: self.location.clone(),
        }
    }
}

impl Task {
    /// A task with nothing set: no key or title, no assessment, the default
    /// configuration, position 0, no skills, experience 1, minimum rating 5.
    pub fn new() -> (r: Self)
        ensures
            r.identity@.key == Seq::<char>::empty(),
            r.identity@.title == Seq::<char>::empty(),
            r.identity@.remote_name == Seq::<char>::empty(),
            r.info.rate == 0,
            r.config.test == TaskTest::TEST,
            r.config.path == TaskMain::MAIN,
            r.config.loss == TaskLoss::PART,
            r.config.mode == TaskEdit::EDIT,
            r.main_idx == 0,
            r.skills@.len() == 0,
            r.xp == 1,
            r.quest_key@ == Seq::<char>::empty(),
            !r.__is_recheable,
            r.default_min_value == 5,
            r.location.target@ == Seq::<char>::empty(),
            r.location.__origin_folder is None,
            r.location.__workspace_folder is None,
    {
        Task {
            identity: TreeItem::new(),
            ui: TreeUi::new(),
            info: TaskSelfInfo::new(),
            config: TaskConfig::default(),
            main_idx: 0,
            skills: KeyMap::new(),
            xp: 1,
            quest_key: String::new(),
            __is_recheable: false,
            default_min_value: 5,
            location: TaskLocation::new(),
        }
    }

    /// The grader of the task's assessment under its loss policy.
    fn grader(&self) -> (r: TaskGrader<'_>)
        ensures
            r.loss() == self.config.loss,
            r.info() == &self.info,
    {
        self.config.build_grader(&self.info)
    }

    /// `s` padded on the right with `pad_char` to `width` characters.
    fn ljust(s: &str, width: usize, pad_char: char) -> (r: String)
        ensures
            r@ == pad_right(s@, width as nat, pad_char),
    {
        pad_right_exec(s, width, pad_char)
    }

    /// `@key title`, the key padded to `key_pad` characters (its own length
    /// when absent) with `pad_char`; the title alone when it already names
    /// `@key`.
    pub fn get_full_title(&self, key_pad: Option<usize>, pad_char: char) -> (r: String)
        ensures
            r@ == full_title_spec(
                self.identity@.title,
                self.identity@.key,
                match key_pad {
                    Some(p) => p as nat,
                    None => self.identity@.key.len(),
                },
                pad_char,
            ),
    {
        let key = self.identity.get_key();
        let pad = match key_pad {
            Some(p) => p,
            None => key.unicode_len(),
        };
        let mut at_key = String::new();
        push_char(&mut at_key, '@');
        push_str(&mut at_key, key);
        let title = self.identity.get_title();
        if !contains_str(title, at_key.as_str()) {
            let mut out = String::new();
            push_char(&mut out, '@');
            let padded = Task::ljust(key, pad, pad_char);
            push_str(&mut out, padded.as_str());
            push_char(&mut out, ' ');
            push_str(&mut out, title);
            assert(out@ =~= full_title_spec(self.identity@.title, self.identity@.key, pad as nat, pad_char));
            return out;
        }
        title.to_string()
    }

    /// Marks the task reachable or not.
    pub fn set_reachable(&mut self, reachable: bool) -> (r: &mut Self)
        ensures
            r.__is_recheable == reachable,
            r.identity@ == old(self).identity@,
            r.config == old(self).config,
            r.xp == old(self).xp,
            r.main_idx == old(self).main_idx,
            *final(self) == *final(r),
    {
        self.__is_recheable = reachable;
        self
    }

    /// Whether the task is on the side path.
    pub fn is_optional(&self) -> (r: bool)
        ensures
            r == (self.config.path == TaskMain::SIDE),
    {
        self.config.path == TaskMain::SIDE
    }

    /// Whether the task is tested automatically.
    pub fn is_auto(&self) -> (r: bool)
        ensures
            r == (self.config.test == TaskTest::TEST),
    {
        self.config.test == TaskTest::TEST
    }

    /// Whether the task is reachable.
    pub fn is_reachable(&self) -> (r: bool)
        ensures
            r == self.__is_recheable,
    {
        self.__is_recheable
    }

    /// Whether the task is a link (see [`TaskLocation::is_link`]).
    pub fn is_link(&self) -> (r: bool)
        ensures
            r == self.location.link_spec(self.config.mode),
    {
        self.location.is_link(self.config.mode)
    }

    /// Whether the task is imported (see [`TaskLocation::is_import_type`]).
    pub fn is_import_type(&self) -> (r: bool)
        ensures
            r == (self.config.mode == TaskEdit::EDIT && self.location.__origin_folder is Some
                && self.location.__workspace_folder is Some),
    {
        self.location.is_import_type(self.config.mode)
    }

    /// Whether the task is static (see [`TaskLocation::is_static_type`]).
    pub fn is_static_type(&self) -> (r: bool)
        ensures
            r == (!self.location.link_spec(self.config.mode) && opt_view(self.location.__origin_folder)
                == self.location.workspace_spec()),
    {
        self.location.is_static_type(self.config.mode)
    }

    /// Whether the assessment has nothing to store.
    pub fn is_db_empty(&self) -> (r: bool)
        ensures
            r == (kv_spec(&self.info).len() == 0),
    {
        let kv = self.info.get_kv();
        kv.len() == 0
    }

    /// Loads the assessment from its dictionary text `{k: v, ...}` (see
    /// [`dict_spec`]) and, when it has an `idx` entry, the position.
    pub fn decode_from_dict(&mut self, value: &str)
        requires
            value@.len() >= 2,
            (value@[0] as u32) < 128,
            (value@.last() as u32) < 128,
            lookup(dict_spec(value@), STR_INDEX@) matches Some(v) ==> parse_i32_spec(v) is Some,
        ensures
            loaded(&old(self).info, &final(self).info, dict_spec(value@)),
            final(self).main_idx == match lookup(dict_spec(value@), STR_INDEX@) {
                Some(v) => parse_i32_spec(v).unwrap(),
                None => old(self).main_idx,
            },
            final(self).identity@ == old(self).identity@,
            final(self).config == old(self).config,
            final(self).xp == old(self).xp,
            final(self).default_min_value == old(self).default_min_value,
            final(self).__is_recheable == old(self).__is_recheable,
            final(self).quest_key@ == old(self).quest_key@,
    {
        let n = value.unicode_len();
        let inner = value.substring_char(1, n - 1);
        let pieces = split_char(inner, ',');
        let ghost pv = strings_view(pieces@);
        let mut kv: KeyMap<String> = KeyMap::new();
        let mut i: usize = 0;
        assert(str_view(kv@) =~= Seq::<(Seq<char>, Seq<char>)>::empty());
        assert(pv.take(0) =~= Seq::<Seq<char>>::empty());
        while i < pieces.len()
            invariant
                i <= pieces@.len(),
                pv == strings_view(pieces@),
                pv == split_char_spec(value@.subrange(1, value@.len() - 1), ','),
                str_view(kv@) == dict_entries(pv.take(i as int)),
            decreases pieces.len() - i,
        {
            proof {
                assert(pv.take(i + 1).drop_last() =~= pv.take(i as int));
                assert(pv[i as int] == pieces@[i as int]@);
            }
            match split_once(pieces[i].as_str(), ':') {
                Some((k, v)) => {
                    let tk = trim(k.as_str());
                    let tv = trim(v.as_str());
                    let ghost before = kv@;
                    proof {
                        lemma_str_view_insert(before, tk@, tv);
                    }
                    kv.insert(tk, tv);
                },
                None => {},
            }
            i = i + 1;
        }
        assert(pv.take(pv.len() as int) =~= pv);
        self.info.load_from_kv(&kv);
        if kv.contains_key(STR_INDEX) {
            match kv.get(STR_INDEX) {
                Some(key) => {
                    proof {
                        crate::keymap::lemma_str_view_lookup(kv@, STR_INDEX@);
                    }
                    match parse_i32(key.as_str()) {
                        Some(integer) => {
                            self.main_idx = integer;
                        },
                        None => {},
                    }
                },
                None => {},
            }
        } else {
            proof {
                crate::keymap::lemma_str_view_lookup(kv@, STR_INDEX@);
            }
        }
    }

    /// The colour key of a rating: `c` unrated, `r` below the minimum (the
    /// task's own when absent), `y` below 10, `g` at 10, `w` above.
    pub fn get_rate_color(&self, value: i32, min_value: Option<i32>) -> (r: String)
        ensures
            r@ == seq![rate_color_spec(
                value as int,
                match min_value {
                    Some(m) => m as int,
                    None => self.default_min_value as int,
                },
            )],
    {
        let m = match min_value {
            Some(m) => m,
            None => self.default_min_value,
        };
        let c = if value == 0 {
            'c'
        } else if value < m {
            'r'
        } else if value < 10 {
            'y'
        } else if value == 10 {
            'g'
        } else {
            'w'
        };
        char_string(c)
    }

    /// The rating mark of `value`: `x` unrated, the number in its colour up
    /// to 9, the check mark in its colour at 10, `0` above.
    pub fn get_rate_symbol(&self, value: i32, min_value: Option<i32>) -> (r: Text)
        ensures
            tokens_view(r.data@) == rate_symbol_spec(
                value,
                match min_value {
                    Some(m) => m,
                    None => self.default_min_value,
                },
            ),
            r.value@ == Seq::<char>::empty(),
            r.fmt@ == Seq::<char>::empty(),
    {
        let min_value = match min_value {
            Some(m) => m,
            None => self.default_min_value,
        };
        let color = self.get_rate_color(value, Some(min_value));
        let mut text = Text::new(None, None);
        assert(tokens_view(text.data@) =~= Seq::<(Seq<char>, Seq<char>)>::empty());
        if value == 0 {
            let x = char_string('x');
            text.add(Some(AddValue::Str(x)));
        } else if value < min_value || value < 10 {
            let digits = i32_to_string(value);
            text.addf(color, Some(AddValue::Str(digits)));
        } else if value == 10 {
            let mark = CHECK.to_string();
            text.addf(color, Some(AddValue::Str(mark)));
        } else {
            let zero = char_string('0');
            text.add(Some(AddValue::Str(zero)));
        }
        text
    }

    /// The experience of the task, at least 1 when unset.
    pub fn get_xp(&self) -> (r: i32)
        ensures
            r == if self.xp == 0 {
                1
            } else {
                self.xp
            },
    {
        if self.xp == 0 {
            return 1;
        }
        self.xp
    }

    /// Whether the self-assessed rate reaches 70%.
    pub fn is_complete(&self) -> (r: bool)
        ensures
            r == (self.info.rate >= 70),
    {
        self.grader().get_rate() >= 70
    }

    /// Whether the task has no rate yet.
    pub fn not_started(&self) -> (r: bool)
        ensures
            r == (self.info.rate == 0),
    {
        self.grader().get_rate() == 0
    }

    /// Whether the rate is below 100%.
    pub fn in_progress(&self) -> (r: bool)
        ensures
            r == (self.info.rate < 100),
    {
        self.grader().get_rate() < 100
    }

    /// Whether a word of the title starts with `@`.
    pub fn has_at_symbol(&self) -> (r: bool)
        ensures
            r == exists|i: int|
                0 <= i < words(self.identity@.title).len() && #[trigger] words(
                    self.identity@.title,
                )[i].len() > 0 && words(self.identity@.title)[i][0] == '@',
    {
        let ws = split_whitespace(self.identity.get_title());
        let ghost wv = strings_view(ws@);
        let mut i: usize = 0;
        while i < ws.len()
            invariant
                i <= ws@.len(),
                wv == strings_view(ws@),
                wv == words(self.identity@.title),
                forall|j: int| 0 <= j < i ==> !(#[trigger] wv[j].len() > 0 && wv[j][0] == '@'),
            decreases ws.len() - i,
        {
            let w = ws[i].as_str();
            assert(wv[i as int] == w@);
            if w.unicode_len() > 0 && w.get_char(0) == '@' {
                return true;
            }
            i = i + 1;
        }
        false
    }
}

} // verus!
