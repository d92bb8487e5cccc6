//! A quest: a titled group of tasks with skills, languages, requirements
//! and a completion threshold.

use crate::chars::{copy_string, push_char, push_str};
use crate::game::task::{task_data, Task, TaskData};
use crate::game::tree_item::{full_key_of, strip_at, TreeItem, TreeItemView};
use crate::keymap::{insert_entry, KeyMap};
use crate::strs::{
    i32_to_string, int_decimal, lemma_str_lt_asym, lemma_str_lt_total, lemma_str_lt_trans,
    starts_with, starts_with_spec, str_less, str_lt, strings_view,
};
use crate::text::{char_tokens, tokens_view, Text};
use crate::unicode::nfc_form;
use vstd::prelude::*;

verus! {

/// Whether `text` starts with `prefix`.
pub fn startswith(text: String, prefix: String) -> (r: bool)
    ensures
        r == starts_with_spec(text@, prefix@),
{
    let prefix_len = prefix.as_str().unicode_len();
    if prefix_len > text.as_str().unicode_len() {
        return false;
    }
    starts_with(text.as_str(), prefix.as_str())
}

/// Entries after inserting each of `more` in order.
pub open spec fn extend_spec<V>(es: Seq<(Seq<char>, V)>, more: Seq<(Seq<char>, V)>) -> Seq<(Seq<char>, V)>
    decreases more.len(),
{
    if more.len() == 0 {
        es
    } else {
        insert_entry(extend_spec(es, more.drop_last()), more.last().0, more.last().1)
    }
}

/// The tokens that a skill adds to a quest's title: ` +skill`, with
/// `*value` when the value is above 1, in blue.
pub open spec fn skill_tokens(skill: Seq<char>, value: i32) -> Seq<(Seq<char>, Seq<char>)> {
    let base = seq![' ', '+'] + skill;
    let text = if value > 1 {
        base + seq!['*'] + int_decimal(value as int)
    } else {
        base
    };
    char_tokens(nfc_form(text), seq!['b'])
}

/// The tokens of all skills, in order.
pub open spec fn skills_tokens(skills: Seq<(Seq<char>, i32)>) -> Seq<(Seq<char>, Seq<char>)>
    decreases skills.len(),
{
    if skills.len() == 0 {
        Seq::empty()
    } else {
        skills_tokens(skills.drop_last()) + skill_tokens(skills.last().0, skills.last().1)
    }
}

/// The number of complete tasks (rate at least 70%).
pub open spec fn count_complete(ts: Seq<Task>) -> nat
    decreases ts.len(),
{
    if ts.len() == 0 {
        0
    } else {
        count_complete(ts.drop_last()) + if ts.last().info.rate >= 70 {
            1nat
        } else {
            0nat
        }
    }
}

/// Whether tasks are in order of title.
pub open spec fn sorted_by_title(ts: Seq<Task>) -> bool {
    forall|i: int, j: int| 0 <= i < j < ts.len() ==> !str_lt(#[trigger] ts[j].identity@.title, #[trigger] ts[i].identity@.title)
}

/// The first position from `i` on whose task has a title above `t`'s; the
/// length when there is none.
pub open spec fn insert_pos(s: Seq<Task>, t: Task, i: int) -> int
    decreases s.len() - i,
{
    if i < 0 || i >= s.len() {
        s.len() as int
    } else if str_lt(t.identity@.title, s[i].identity@.title) {
        i
    } else {
        insert_pos(s, t, i + 1)
    }
}

/// Tasks sorted by title, stably: each task in turn is inserted after every
/// task already placed whose title is not above its own.
pub open spec fn sorted_tasks(s: Seq<Task>) -> Seq<Task>
    decreases s.len(),
{
    if s.len() == 0 {
        Seq::empty()
    } else {
        let r = sorted_tasks(s.drop_last());
        r.insert(insert_pos(r, s.last(), 0), s.last())
    }
}

/// Two tasks that differ at most in their skills.
pub open spec fn same_but_skills(a: Task, b: Task) -> bool {
    &&& a.identity == b.identity
    &&& a.ui == b.ui
    &&& a.info == b.info
    &&& a.config == b.config
    &&& a.main_idx == b.main_idx
    &&& a.xp == b.xp
    &&& a.quest_key == b.quest_key
    &&& a.__is_recheable == b.__is_recheable
    &&& a.default_min_value == b.default_min_value
    &&& a.location == b.location
}

/// The values of tasks, in order.
pub open spec fn tasks_data(ts: Seq<Task>) -> Seq<TaskData> {
    Seq::new(ts.len(), |i: int| task_data(ts[i]))
}

/// A task as a quest with skills `skills` holds it: the quest's skills
/// inserted into the task's.
pub open spec fn joined_task(t: TaskData, skills: Seq<(Seq<char>, i32)>) -> TaskData {
    TaskData { skills: extend_spec(t.skills, skills), ..t }
}

/// A quest as values: every field by its view.
pub struct QuestData {
    pub tree: TreeItemView,
    pub line_number: usize,
    pub line: Seq<char>,
    pub requires: Seq<Seq<char>>,
    pub requires_ptr: Seq<Seq<char>>,
    pub required_by_ptr: Seq<Seq<char>>,
    pub skills: Seq<(Seq<char>, i32)>,
    pub languages: Seq<Seq<char>>,
    pub min_percent_completion: i32,
    pub filename: Seq<char>,
    pub remote_name: Seq<char>,
    pub reachable: bool,
    pub tasks: Seq<TaskData>,
}

/// The values of a quest.
pub open spec fn quest_data(q: Quest) -> QuestData {
    QuestData {
        tree: q.tree@,
        line_number: q.line_number,
        line: q.line@,
        requires: strings_view(q.requires@),
        requires_ptr: strings_view(q.requires_ptr@),
        required_by_ptr: strings_view(q.required_by_ptr@),
        skills: q.skills@,
        languages: strings_view(q.languages@),
        min_percent_completion: q.min_percent_completion,
        filename: q.filename@,
        remote_name: q.remote_name@,
        reachable: q.__is_reachable,
        tasks: tasks_data(q.__tasks@),
    }
}

/// A quest's values after adding tasks: each joined with the quest's
/// skills, at the end.
pub open spec fn with_tasks(d: QuestData, ts: Seq<TaskData>) -> QuestData {
    QuestData { tasks: d.tasks + Seq::new(ts.len(), |i: int| joined_task(ts[i], d.skills)), ..d }
}

/// A quest.
#[derive(Debug)]
pub struct Quest {
    pub tree: TreeItem,
    pub line_number: usize,
    pub line: String,
    pub __tasks: Vec<Task>,
    pub requires: Vec<String>,
    /// Full keys of the quests this one requires.
    pub requires_ptr: Vec<String>,
    /// Full keys of the quests that require this one.
    pub required_by_ptr: Vec<String>,
    pub skills: KeyMap<i32>,
    pub languages: Vec<String>,
    pub min_percent_completion: i32,
    pub filename: String,
    pub remote_name: String,
    pub __is_reachable: bool,
}

fn copy_strings(v: &Vec<String>) -> (r: Vec<String>)
    ensures
        strings_view(r@) == strings_view(v@),
{
    let mut r: Vec<String> = Vec::new();
    let mut i: usize = 0;
    while i < v.len()
        invariant
            i <= v@.len(),
            strings_view(r@) == strings_view(v@).take(i as int),
        decreases v.len() - i,
    {
        let ghost before = r@;
        r.push(copy_string(&v[i]));
        proof {
            crate::strs::lemma_strings_view_push(before, r@.last());
            assert(strings_view(v@).take(i + 1) =~= strings_view(v@).take(i as int).push(v@[i as int]@));
        }
        i = i + 1;
    }
    assert(strings_view(v@).take(v@.len() as int) =~= strings_view(v@));
    r
}

fn clone_tasks(v: &Vec<Task>) -> (r: Vec<Task>)
    ensures
        r@.len() == v@.len(),
        tasks_data(r@) == tasks_data(v@),
{
    let mut r: Vec<Task> = Vec::new();
    let mut i: usize = 0;
    while i < v.len()
        invariant
            i <= v@.len(),
            r@.len() == i,
            forall|j: int| 0 <= j < i ==> task_data(#[trigger] r@[j]) == task_data(v@[j]),
        decreases v.len() - i,
    {
        r.push(v[i].clone());
        i = i + 1;
    }
    assert(tasks_data(r@) =~= tasks_data(v@));
    r
}

impl Clone for Quest {
    /// A copy with the same values.
    fn clone(&self) -> (r: Self)
        ensures
            quest_data(r) == quest_data(*self),
            r.__tasks@.len() == self.__tasks@.len(),
    {
        let skills = self.skills.clone();
        proof {
            assert forall|i: int| 0 <= i < self.skills@.len() implies #[trigger] skills@[i] == self.skills@[i] by {
                assert(cloned::<i32>(self.skills@[i].1, skills@[i].1));
            }
            assert(skills@ =~= self.skills@);
        }
        Quest {
            tree: self.tree.clone(),
            line_number: self.line_number,
            line: copy_string(&self.line),
            __tasks: clone_tasks(&self.__tasks),
            requires: copy_strings(&self.requires),
            requires_ptr: copy_strings(&self.requires_ptr),
            required_by_ptr: copy_strings(&self.required_by_ptr),
            skills,
            languages: copy_strings(&self.languages),
            min_percent_completion: self.min_percent_completion,
            filename: copy_string(&self.filename),
            remote_name: copy_string(&self.remote_name),
            __is_reachable: self.__is_reachable,
        }
    }
}

impl Quest {
    /// A quest with a title and a key (without one leading `@`), no tasks,
    /// requirements, skills or languages, and a threshold of 50%.
    pub fn new(title: String, key: String) -> (r: Self)
        ensures
            r.tree@ == (TreeItemView { remote_name: Seq::empty(), key: strip_at(key@), title: title@ }),
            r.line_number == 0,
            r.line@ == Seq::<char>::empty(),
            r.__tasks@.len() == 0,
            r.requires@.len() == 0,
            r.requires_ptr@.len() == 0,
            r.required_by_ptr@.len() == 0,
            r.skills@.len() == 0,
            r.languages@.len() == 0,
            r.min_percent_completion == 50,
            r.filename@ == Seq::<char>::empty(),
            r.remote_name@ == Seq::<char>::empty(),
            !r.__is_reachable,
    {
        let mut tree = TreeItem::new();
        tree.set_key(key);
        tree.set_title(title);
        Quest {
            tree,
            line_number: 0,
            line: String::new(),
            __tasks: Vec::new(),
            requires: Vec::new(),
            requires_ptr: Vec::new(),
            required_by_ptr: Vec::new(),
            skills: KeyMap::new(),
            languages: Vec::new(),
            min_percent_completion: 50,
            filename: String::new(),
            remote_name: String::new(),
            __is_reachable: false,
        }
    }

    /// Adds the requirement `remote@key`, the key taken as it is.
    pub fn add_require_key(&mut self, key: String)
        ensures
            strings_view(final(self).requires@) == strings_view(old(self).requires@).push(
                full_key_of(old(self).tree@.remote_name, key@),
            ),
            final(self).tree@ == old(self).tree@,
            final(self).__tasks@ == old(self).__tasks@,
            final(self).skills@ == old(self).skills@,
            final(self).languages@ == old(self).languages@,
            final(self).min_percent_completion == old(self).min_percent_completion,
            final(self).remote_name@ == old(self).remote_name@,
            final(self).line == old(self).line,
            final(self).line_number == old(self).line_number,
    {
        let mut full = String::new();
        push_str(&mut full, self.tree.get_remote_name());
        push_char(&mut full, '@');
        push_str(&mut full, key.as_str());
        assert(full@ =~= full_key_of(old(self).tree@.remote_name, key@));
        let ghost before = self.requires@;
        self.requires.push(full);
        proof {
            crate::strs::lemma_strings_view_push(before, self.requires@.last());
        }
    }

    /// The title as text: the source name in cyan, `:`, the title, then,
    /// when asked, each skill as ` +skill` (with `*value` above 1) in blue.
    pub fn get_full_title(&self, show_skills: bool) -> (r: Text)
        ensures
            tokens_view(r.data@) == char_tokens(nfc_form(self.remote_name@), seq!['c'])
                + char_tokens(nfc_form(seq![':']), Seq::empty()) + char_tokens(
                nfc_form(self.tree@.title),
                Seq::empty(),
            ) + if show_skills {
                skills_tokens(self.skills@)
            } else {
                Seq::empty()
            },
    {
        let mut output = Text::new(None, None);
        assert(tokens_view(output.data@) =~= Seq::<(Seq<char>, Seq<char>)>::empty());
        let mut c = String::new();
        push_char(&mut c, 'c');
        output.addf(c, Some(crate::text::AddValue::Str(copy_string(&self.remote_name))));
        let mut colon = String::new();
        push_char(&mut colon, ':');
        output.add(Some(crate::text::AddValue::Str(colon)));
        output.add(Some(crate::text::AddValue::Str(self.tree.get_title().to_string())));
        let ghost head = tokens_view(output.data@);
        if show_skills {
            let mut i: usize = 0;
            assert(self.skills@.take(0) =~= Seq::<(Seq<char>, i32)>::empty());
            while i < self.skills.len()
                invariant
                    i <= self.skills@.len(),
                    tokens_view(output.data@) == head + skills_tokens(self.skills@.take(i as int)),
                decreases self.skills@.len() - i,
            {
                let (skill, value) = self.skills.entry(i);
                let mut s = String::new();
                push_char(&mut s, ' ');
                push_char(&mut s, '+');
                push_str(&mut s, skill.as_str());
                if *value > 1 {
                    push_char(&mut s, '*');
                    let digits = i32_to_string(*value);
                    push_str(&mut s, digits.as_str());
                }
                let mut b = String::new();
                push_char(&mut b, 'b');
                let ghost sv = s@;
                output.addf(b, Some(crate::text::AddValue::Str(s)));
                proof {
                    assert(self.skills@.take(i + 1).drop_last() =~= self.skills@.take(i as int));
                    assert(sv =~= if *value > 1 {
                        seq![' ', '+'] + skill@ + seq!['*'] + int_decimal(*value as int)
                    } else {
                        seq![' ', '+'] + skill@
                    });
                }
                i = i + 1;
            }
            assert(self.skills@.take(self.skills@.len() as int) =~= self.skills@);
        } else {
            assert(head + Seq::<(Seq<char>, Seq<char>)>::empty() =~= head);
        }
        output
    }

    /// Whether the quest is reachable.
    pub fn is_reachable(&self) -> (r: bool)
        ensures
            r == self.__is_reachable,
    {
        self.__is_reachable
    }

    /// Marks the quest reachable or not.
    pub fn set_reachable(&mut self, value: bool) -> (r: &mut Self)
        ensures
            r.__is_reachable == value,
            r.tree@ == old(self).tree@,
            r.__tasks@ == old(self).__tasks@,
            r.skills@ == old(self).skills@,
            *final(self) == *final(r),
    {
        self.__is_reachable = value;
        self
    }

    /// Marks every task reachable.
    pub fn update_tasks_reachable(&mut self)
        ensures
            final(self).__tasks@.len() == old(self).__tasks@.len(),
            forall|i: int| 0 <= i < old(self).__tasks@.len() ==> (#[trigger] final(self).__tasks@[i]).__is_recheable
                && final(self).__tasks@[i].identity@ == old(self).__tasks@[i].identity@
                && final(self).__tasks@[i].config == old(self).__tasks@[i].config
                && final(self).__tasks@[i].xp == old(self).__tasks@[i].xp
                && final(self).__tasks@[i].main_idx == old(self).__tasks@[i].main_idx,
            final(self).tree@ == old(self).tree@,
            final(self).skills@ == old(self).skills@,
    {
        let mut tasks: Vec<Task> = Vec::new();
        std::mem::swap(&mut tasks, &mut self.__tasks);
        let ghost orig = tasks@;
        let mut i: usize = 0;
        while i < tasks.len()
            invariant
                i <= tasks@.len(),
                tasks@.len() == orig.len(),
                forall|j: int| 0 <= j < i ==> (#[trigger] tasks@[j]).__is_recheable && tasks@[j].identity@
                    == orig[j].identity@ && tasks@[j].config == orig[j].config && tasks@[j].xp == orig[j].xp
                    && tasks@[j].main_idx == orig[j].main_idx,
                forall|j: int| i <= j < orig.len() ==> #[trigger] tasks@[j] == orig[j],
            decreases tasks.len() - i,
        {
            let ghost prev = tasks@;
            let mut t = tasks.remove(i);
            t.set_reachable(true);
            tasks.insert(i, t);
            assert(tasks@ =~= prev.update(i as int, t));
            i = i + 1;
        }
        self.__tasks = tasks;
    }

    /// Adds a task; the quest's skills are inserted into the task's skills
    /// first, replacing values of the same keys.
    pub fn add_task(&mut self, task: Task)
        ensures
            final(self).__tasks@.len() == old(self).__tasks@.len() + 1,
            forall|i: int| 0 <= i < old(self).__tasks@.len() ==> #[trigger] final(self).__tasks@[i] == old(
                self,
            ).__tasks@[i],
            same_but_skills(final(self).__tasks@.last(), task),
            final(self).__tasks@.last().skills@ == extend_spec(task.skills@, old(self).skills@),
            final(self).tree@ == old(self).tree@,
            final(self).skills@ == old(self).skills@,
            final(self).min_percent_completion == old(self).min_percent_completion,
            quest_data(*final(self)) == with_tasks(quest_data(*old(self)), seq![task_data(task)]),
    {
        let mut task = task;
        let ghost t0 = task;
        let mut i: usize = 0;
        assert(old(self).skills@.take(0) =~= Seq::<(Seq<char>, i32)>::empty());
        while i < self.skills.len()
            invariant
                i <= self.skills@.len(),
                self.skills@ == old(self).skills@,
                same_but_skills(task, t0),
                task.skills@ == extend_spec(t0.skills@, self.skills@.take(i as int)),
            decreases self.skills@.len() - i,
        {
            let (k, v) = self.skills.entry(i);
            task.skills.insert(copy_string(k), *v);
            proof {
                assert(self.skills@.take(i + 1).drop_last() =~= self.skills@.take(i as int));
            }
            i = i + 1;
        }
        assert(self.skills@.take(self.skills@.len() as int) =~= self.skills@);
        let ghost td = task_data(task);
        self.__tasks.push(task);
        proof {
            assert(task_data(self.__tasks@.last()) == joined_task(task_data(t0), old(self).skills@));
            assert(tasks_data(self.__tasks@) =~= tasks_data(old(self).__tasks@) + Seq::new(
                1,
                |i: int| joined_task(seq![task_data(t0)][i], old(self).skills@),
            ));
        }
    }

    /// Copies of the tasks.
    pub fn get_tasks(&self) -> (r: Vec<Task>)
        ensures
            r@.len() == self.__tasks@.len(),
            tasks_data(r@) == tasks_data(self.__tasks@),
    {
        clone_tasks(&self.__tasks)
    }

    /// Sorts the tasks by title.
    pub fn sort_tasks_by_title(&mut self)
        ensures
            final(self).__tasks@.to_multiset() == old(self).__tasks@.to_multiset(),
            sorted_by_title(final(self).__tasks@),
            final(self).__tasks@ == sorted_tasks(old(self).__tasks@),
            quest_data(*final(self)) == (QuestData {
                tasks: tasks_data(final(self).__tasks@),
                ..quest_data(*old(self))
            }),
    {
        broadcast use vstd::seq_lib::group_to_multiset_ensures;

        let mut rest: Vec<Task> = Vec::new();
        std::mem::swap(&mut rest, &mut self.__tasks);
        let ghost orig = rest@;
        let mut result: Vec<Task> = Vec::new();
        assert(result@.to_multiset().add(rest@.to_multiset()) =~= orig.to_multiset());
        assert(orig.skip(0) =~= orig);
        assert(orig.take(0) =~= Seq::<Task>::empty());
        while rest.len() > 0
            invariant
                result@.to_multiset().add(rest@.to_multiset()) == orig.to_multiset(),
                sorted_by_title(result@),
                rest@.len() <= orig.len(),
                rest@ == orig.skip(orig.len() - rest@.len()),
                result@ == sorted_tasks(orig.take(orig.len() - rest@.len())),
            decreases rest@.len(),
        {
            let ghost done = orig.len() - rest@.len();
            let ghost before_rest = rest@;
            let t = rest.remove(0);
            proof {
                broadcast use vstd::multiset::group_multiset_axioms;
                vstd::seq_lib::to_multiset_remove(before_rest, 0);
                assert(before_rest[0] == t);
                assert(before_rest.contains(t));
                vstd::seq_lib::to_multiset_contains(before_rest, t);
            }
            proof {
                broadcast use vstd::multiset::group_multiset_axioms;
                assert(result@.to_multiset().add(rest@.to_multiset()).insert(t) =~= orig.to_multiset());
            }
            let mut j: usize = 0;
            let mut stop = false;
            while j < result.len() && !stop
                invariant
                    j <= result@.len(),
                    forall|k: int| 0 <= k < j ==> !str_lt(t.identity@.title, #[trigger] result@[k].identity@.title),
                    stop ==> j < result@.len() && str_lt(t.identity@.title, result@[j as int].identity@.title),
                    sorted_by_title(result@),
                    result@.to_multiset().add(rest@.to_multiset()).insert(t) == orig.to_multiset(),
                    insert_pos(result@, t, j as int) == insert_pos(result@, t, 0),
                    stop ==> insert_pos(result@, t, j as int) == j,
                decreases result@.len() - j + if stop { 0int } else { 1int },
            {
                if str_less(t.identity.get_title(), result[j].identity.get_title()) {
                    stop = true;
                } else {
                    j = j + 1;
                }
            }
            let ghost before = result@;
            result.insert(j, t);
            proof {
                assert(insert_pos(before, t, j as int) == j);
                assert(orig.take(done + 1).drop_last() =~= orig.take(done));
                assert(orig.take(done + 1).last() == t) by {
                    assert(before_rest == orig.skip(done));
                    assert(before_rest[0] == orig[done]);
                }
                assert(rest@ =~= orig.skip(done + 1));
                vstd::seq_lib::to_multiset_insert(before, j as int, t);
                let r = result@;
                assert forall|a: int, b: int| 0 <= a < b < r.len() implies !str_lt(
                    #[trigger] r[b].identity@.title,
                    #[trigger] r[a].identity@.title,
                ) by {
                    let ta = t.identity@.title;
                    if b < j {
                        assert(r[a] == before[a] && r[b] == before[b]);
                    } else if b == j {
                        assert(r[a] == before[a]);
                        lemma_str_lt_total(ta, before[a].identity@.title);
                        if str_lt(ta, before[a].identity@.title) {
                        }
                    } else if a == j {
                        assert(r[b] == before[b - 1]);
                        assert(str_lt(ta, before[j as int].identity@.title));
                        if b - 1 > j {
                            assert(before[j as int] == before[j as int]);
                            if str_lt(before[b - 1].identity@.title, before[j as int].identity@.title) {
                            }
                            lemma_str_lt_total(before[b - 1].identity@.title, before[j as int].identity@.title);
                            if str_lt(before[j as int].identity@.title, before[b - 1].identity@.title) {
                                lemma_str_lt_trans(ta, before[j as int].identity@.title, before[b - 1].identity@.title);
                            }
                        }
                        lemma_str_lt_asym(ta, r[b].identity@.title);
                    } else if a < j {
                        assert(r[a] == before[a] && r[b] == before[b - 1]);
                        if a < b - 1 {
                        }
                    } else {
                        assert(r[a] == before[a - 1] && r[b] == before[b - 1]);
                    }
                }
                broadcast use vstd::multiset::group_multiset_axioms;
                assert(result@.to_multiset().add(rest@.to_multiset()) =~= orig.to_multiset());
            }
        }
        assert(rest@.to_multiset() =~= vstd::multiset::Multiset::<Task>::empty());
        assert(result@.to_multiset() =~= orig.to_multiset());
        assert(orig.take(orig.len() as int) =~= orig);
        self.__tasks = result;
    }

    /// `(done, total)`: how many tasks are complete, and how many there are.
    pub fn get_completion(&self) -> (r: (i32, i32))
        requires
            self.__tasks@.len() <= i32::MAX,
        ensures
            r.0 == count_complete(self.__tasks@),
            r.1 == self.__tasks@.len(),
    {
        let mut total: i32 = 0;
        let mut done: i32 = 0;
        let mut i: usize = 0;
        while i < self.__tasks.len()
            invariant
                i <= self.__tasks@.len() <= i32::MAX,
                total == i,
                done == count_complete(self.__tasks@.take(i as int)),
                done <= i,
            decreases self.__tasks@.len() - i,
        {
            proof {
                assert(self.__tasks@.take(i + 1).drop_last() =~= self.__tasks@.take(i as int));
            }
            total = total + 1;
            if self.__tasks[i].is_complete() {
                done = done + 1;
            }
            i = i + 1;
        }
        assert(self.__tasks@.take(self.__tasks@.len() as int) =~= self.__tasks@);
        (done, total)
    }
}

} // verus!
