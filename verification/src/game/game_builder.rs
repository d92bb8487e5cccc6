//! Building the quests of a source from its index file.
//!
//! Reading the index file, checking that task files exist and resolving
//! workspace folders are left to the caller, which hands over each line and
//! each task read from it.

use crate::chars::{copy_string, push_char, push_str};
use crate::game::quest::{extend_spec, quest_data, same_but_skills, tasks_data, with_tasks, Quest, QuestData};
use crate::game::quest_parser::{heading_body, heading_quest, quest_line_ok, QuestParser};
use crate::game::task::{task_data, Task, TaskData};
use crate::game::task_parser::{fresh_task, parsed_task_ok, TaskParser};
use crate::game::tree_item::{full_key_of, strip_at, TreeItemView};
use crate::keymap::{key_index, lookup, str_view, KeyMap};
use crate::settings::rep_source::RepSource;
use crate::strs::{contains_spec, contains_str, strings_view};
use crate::unicode::{lower_form, to_lower};
use vstd::prelude::*;

verus! {

/// What the filtering keeps of a quest: all its values.
pub type QuestSummary = QuestData;

/// A kept quest: its key and its values.
pub type KeptQuest = (Seq<char>, QuestData);

/// The state of the filtering: the quests kept in order, and the quest last
/// matched.
pub type FilterState = (Seq<KeptQuest>, Option<QuestSummary>);

/// The position of `k` among the kept quests.
pub open spec fn kept_index(es: Seq<KeptQuest>, k: Seq<char>, i: int) -> Option<int>
    decreases es.len() - i,
{
    if i < 0 || i >= es.len() {
        None
    } else if es[i].0 == k {
        Some(i)
    } else {
        kept_index(es, k, i + 1)
    }
}

/// The quest `destiny` of the source `name`, as made to receive tasks: a
/// new quest with that title and key, of that source.
pub open spec fn destiny_quest(name: Seq<char>, destiny: Seq<char>) -> QuestData {
    QuestData {
        tree: TreeItemView { remote_name: name, key: strip_at(destiny), title: destiny },
        line_number: 0,
        line: Seq::empty(),
        requires: Seq::empty(),
        requires_ptr: Seq::empty(),
        required_by_ptr: Seq::empty(),
        skills: Seq::empty(),
        languages: Seq::empty(),
        min_percent_completion: 50,
        filename: Seq::empty(),
        remote_name: Seq::empty(),
        reachable: false,
        tasks: Seq::empty(),
    }
}

/// Whether a quest matches a pattern: its title holds the pattern, or the
/// pattern is `@key` (both lower-cased).
pub open spec fn quest_matches(q: TreeItemView, pattern: Seq<char>) -> bool {
    contains_spec(lower_form(q.title), lower_form(pattern)) || lower_form(pattern) == seq!['@'] + lower_form(q.key)
}

/// A matching quest kept: as it is when `destiny` is empty (once per key),
/// else its tasks are added, in order, to the quest `destiny` of the source
/// (made when first needed); the quest kept or receiving becomes the last
/// matched.
pub open spec fn keep_step(st: FilterState, name: Seq<char>, destiny: Seq<char>, q: QuestSummary) -> FilterState {
    if destiny.len() == 0 {
        let k = full_key_of(q.tree.remote_name, q.tree.key);
        let es = if kept_index(st.0, k, 0) is Some {
            st.0
        } else {
            st.0.push((k, q))
        };
        (es, Some(q))
    } else {
        let k = full_key_of(name, destiny);
        let es = if kept_index(st.0, k, 0) is Some {
            st.0
        } else {
            st.0.push((k, destiny_quest(name, destiny)))
        };
        let j = kept_index(es, k, 0).unwrap();
        let e = es[j];
        let e2 = (e.0, with_tasks(e.1, q.tasks));
        (es.update(j, e2), Some(e2.1))
    }
}

/// One quest met under the filter `(pattern, destiny)`.
pub open spec fn filter_step(
    st: FilterState,
    name: Seq<char>,
    pattern: Seq<char>,
    destiny: Seq<char>,
    q: QuestSummary,
) -> FilterState {
    if !quest_matches(q.tree, pattern) {
        st
    } else {
        keep_step(st, name, destiny, q)
    }
}

/// All quests met under one filter.
pub open spec fn filter_quests(
    st: FilterState,
    name: Seq<char>,
    pattern: Seq<char>,
    destiny: Seq<char>,
    qs: Seq<QuestSummary>,
) -> FilterState
    decreases qs.len(),
{
    if qs.len() == 0 {
        st
    } else {
        filter_step(filter_quests(st, name, pattern, destiny, qs.drop_last()), name, pattern, destiny, qs.last())
    }
}

/// All filters, in order, over all quests.
pub open spec fn filter_all(
    st: FilterState,
    name: Seq<char>,
    filters: Seq<(Seq<char>, Seq<char>)>,
    qs: Seq<QuestSummary>,
) -> FilterState
    decreases filters.len(),
{
    if filters.len() == 0 {
        st
    } else {
        let prev = filter_all(st, name, filters.drop_last(), qs);
        filter_quests(prev, name, filters.last().0, filters.last().1, qs)
    }
}

pub open spec fn summary(q: Quest) -> QuestSummary {
    quest_data(q)
}

/// The summaries of the quests of a map, in order.
pub open spec fn summaries(es: Seq<(Seq<char>, Quest)>) -> Seq<QuestSummary> {
    Seq::new(es.len(), |i: int| summary(es[i].1))
}

/// The filtering state that a map of quests and an active quest stand for.
pub open spec fn state_of(m: Seq<(Seq<char>, Quest)>, active: Option<Quest>) -> FilterState {
    (
        Seq::new(m.len(), |i: int| (m[i].0, quest_data(m[i].1))),
        match active {
            Some(q) => Some(summary(q)),
            None => None,
        },
    )
}

/// Kept quests after adding one under key `k`: in place when the key is
/// kept already, else at the end.
pub open spec fn insert_summary(acc: Seq<KeptQuest>, k: Seq<char>, v: QuestSummary) -> Seq<KeptQuest> {
    match kept_index(acc, k, 0) {
        Some(j) => acc.update(j, (k, v)),
        None => acc.push((k, v)),
    }
}

/// Whether a quest is kept for `language`: it has tasks, and no languages
/// or that one.
pub open spec fn lang_keeps(q: Quest, language: Seq<char>) -> bool {
    q.__tasks@.len() > 0 && (q.languages@.len() == 0 || strings_view(q.languages@).contains(language))
}

/// The quests kept for `language`, each under its full key.
pub open spec fn lang_filtered(m: Seq<(Seq<char>, Quest)>, language: Seq<char>) -> Seq<KeptQuest>
    decreases m.len(),
{
    if m.len() == 0 {
        Seq::empty()
    } else {
        let acc = lang_filtered(m.drop_last(), language);
        let q = m.last().1;
        if lang_keeps(q, language) {
            insert_summary(acc, full_key_of(q.tree@.remote_name, q.tree@.key), summary(q))
        } else {
            acc
        }
    }
}

/// The quests under their full keys (a later quest replacing an earlier one
/// of the same key).
pub open spec fn collected(m: Seq<(Seq<char>, Quest)>) -> Seq<(Seq<char>, Quest)>
    decreases m.len(),
{
    if m.len() == 0 {
        Seq::empty()
    } else {
        let q = m.last().1;
        crate::keymap::insert_entry(collected(m.drop_last()), full_key_of(q.tree@.remote_name, q.tree@.key), q)
    }
}

/// Builds the quests of a source.
#[derive(Debug)]
pub struct GameBuilder {
    pub source: RepSource,
    pub ordered_quests: Vec<String>,
    pub quests: KeyMap<Quest>,
    pub active_quest: Option<Quest>,
    pub interactive: bool,
    pub verbose: bool,
}

proof fn lemma_kept_index(es: Seq<KeptQuest>, k: Seq<char>, i: int)
    requires
        0 <= i,
    ensures
        kept_index(es, k, i) matches Some(j) ==> i <= j < es.len() && es[j].0 == k,
        kept_index(es, k, i) is None ==> forall|q: int| i <= q < es.len() ==> es[q].0 != k,
    decreases es.len() - i,
{
    if i < es.len() && es[i].0 != k {
        lemma_kept_index(es, k, i + 1);
    }
}

proof fn lemma_kept_index_key(m: Seq<(Seq<char>, Quest)>, k: Seq<char>, i: int)
    requires
        0 <= i,
    ensures
        kept_index(state_of(m, None).0, k, i) == crate::keymap::index_from(m, k, i),
    decreases m.len() - i,
{
    if 0 <= i < m.len() && m[i].0 != k {
        lemma_kept_index_key(m, k, i + 1);
    }
}

proof fn lemma_index_same(a: Seq<(Seq<char>, &Quest)>, b: Seq<(Seq<char>, Quest)>, k: Seq<char>, i: int)
    requires
        0 <= i,
        a.len() == b.len(),
        forall|x: int| 0 <= x < a.len() ==> (#[trigger] a[x]).0 == b[x].0,
    ensures
        crate::keymap::index_from(a, k, i) == crate::keymap::index_from(b, k, i),
    decreases a.len() - i,
{
    if 0 <= i < a.len() && a[i].0 != k {
        lemma_index_same(a, b, k, i + 1);
    }
}

/// The builder after adding `quest`: stored under its full key unless a
/// quest has that key already, that key's quest made active (a copy), and
/// the key put at the end of the order unless it is there.
pub open spec fn quest_added(s0: &GameBuilder, s1: &GameBuilder, quest: &Quest) -> bool {
    let k = full_key_of(quest.tree@.remote_name, quest.tree@.key);
    &&& s1.quests@ == if key_index(s0.quests@, k) is Some {
        s0.quests@
    } else {
        s0.quests@.push((k, *quest))
    }
    &&& s1.active_quest is Some
    &&& s1.active_quest.unwrap().tree@ == lookup(s1.quests@, k).unwrap().tree@
    &&& strings_view(s1.ordered_quests@) == if strings_view(s0.ordered_quests@).contains(k) {
        strings_view(s0.ordered_quests@)
    } else {
        strings_view(s0.ordered_quests@).push(k)
    }
}

impl GameBuilder {
    /// A builder of the quests of `source`, with none yet.
    pub fn new(source: RepSource, verbose: bool) -> (r: Self)
        ensures
            r.source == source,
            r.ordered_quests@.len() == 0,
            r.quests@.len() == 0,
            r.active_quest is None,
            !r.interactive,
            r.verbose == verbose,
    {
        GameBuilder {
            source,
            ordered_quests: Vec::new(),
            quests: KeyMap::new(),
            active_quest: None,
            interactive: false,
            verbose,
        }
    }

    /// Sets whether the builder runs interactively.
    pub fn set_interactive(&mut self, interactive: bool) -> (r: &mut Self)
        ensures
            r.interactive == interactive,
            r.source == old(self).source,
            r.quests == old(self).quests,
            r.ordered_quests == old(self).ordered_quests,
            r.active_quest == old(self).active_quest,
            r.verbose == old(self).verbose,
            *final(self) == *final(r),
    {
        self.interactive = interactive;
        self
    }

    /// Adds a quest under its full key, unless a quest has that key already;
    /// the quest of that key becomes the active one (a copy of it).
    pub fn __add_quest(&mut self, quest: Quest)
        ensures
            quest_added(old(self), final(self), &quest),
            final(self).source == old(self).source,
    {
        let key = quest.tree.get_full_key();
        let ghost k = key@;
        if !self.quests.contains_key(key.as_str()) {
            self.quests.insert(copy_string(&key), quest);
        }
        let mut present = false;
        let mut i: usize = 0;
        while i < self.ordered_quests.len() && !present
            invariant
                i <= self.ordered_quests@.len(),
                !present ==> forall|j: int| 0 <= j < i ==> self.ordered_quests@[j]@ != k,
                present ==> strings_view(self.ordered_quests@).contains(k),
                key@ == k,
            decreases self.ordered_quests@.len() - i + if present { 0int } else { 1int },
        {
            if crate::chars::str_equal(self.ordered_quests[i].as_str(), key.as_str()) {
                assert(strings_view(self.ordered_quests@)[i as int] == k);
                present = true;
            } else {
                i = i + 1;
            }
        }
        if !present {
            let ghost before = self.ordered_quests@;
            let c = copy_string(&key);
            self.ordered_quests.push(c);
            proof {
                crate::strs::lemma_strings_view_push(before, c);
                if strings_view(before).contains(k) {
                    let j = choose|j: int| 0 <= j < strings_view(before).len() && strings_view(before)[j] == k;
                    assert(before[j]@ == k);
                }
            }
        }
        let _n = self.quests.len();
        proof {
            crate::keymap::lemma_key_index_found(self.quests@, k);
            crate::keymap::lemma_key_index_found(old(self).quests@, k);
            if key_index(old(self).quests@, k) is None {
                let ghost n = old(self).quests@.len();
                crate::keymap::lemma_key_index(self.quests@, k, n as int);
            }
        }
        let active = match self.quests.get(key.as_str()) {
            Some(q) => q.clone(),
            None => Quest::new(String::new(), String::new()),
        };
        self.active_quest = Some(active);
    }

    /// Adds a task to the active quest (a quest "Sem Quest" made active
    /// first when there is none).
    pub fn __add_task(&mut self, task: Task)
        ensures
            final(self).active_quest is Some,
            final(self).active_quest.unwrap().__tasks@.len() >= 1,
            same_but_skills(final(self).active_quest.unwrap().__tasks@.last(), task),
            old(self).active_quest is Some ==> ({
                let q0 = old(self).active_quest.unwrap();
                let q1 = final(self).active_quest.unwrap();
                &&& q1.__tasks@.len() == q0.__tasks@.len() + 1
                &&& forall|i: int| 0 <= i < q0.__tasks@.len() ==> #[trigger] q1.__tasks@[i] == q0.__tasks@[i]
                &&& q1.__tasks@.last().skills@ == extend_spec(task.skills@, q0.skills@)
                &&& q1.tree@ == q0.tree@
                &&& final(self).quests == old(self).quests
            }),
            final(self).source == old(self).source,
    {
        if self.active_quest.is_none() {
            self.__add_quest(Quest::new("Sem Quest".to_string(), "_sem_quest".to_string()));
        }
        let mut q = match self.active_quest.take() {
            Some(q) => q,
            None => Quest::new(String::new(), String::new()),
        };
        q.add_task(task);
        self.active_quest = Some(q);
    }

    /// Reads one line of the index file `index_path` (number `line_num`,
    /// from 0): a quest heading adds its quest; a task line gives the parser
    /// holding its task, for the caller to check and hand to
    /// [`GameBuilder::__add_task`].
    pub fn parse_content_line(&mut self, index_path: &str, line: &str, line_num: usize) -> (r: Option<TaskParser>)
        requires
            quest_line_ok(line@),
            line_num < usize::MAX,
        ensures
            r matches Some(p) ==> p.task is Some,
            final(self).source == old(self).source,
            heading_body(line@) is Some ==> r is None && exists|q: Quest|
                #![trigger heading_quest(old(self).source.name@, &q, heading_body(line@).unwrap())]
                heading_quest(old(self).source.name@, &q, heading_body(line@).unwrap()) && q.line@ == line@
                    && q.line_number == line_num && quest_added(old(self), final(self), &q),
            heading_body(line@) is None ==> final(self).quests == old(self).quests && final(self).active_quest
                == old(self).active_quest && final(self).ordered_quests == old(self).ordered_quests,
            heading_body(line@) is None ==> exists|t0: Task|
                #![trigger fresh_task(t0, old(self).source.name@)]
                fresh_task(t0, old(self).source.name@) && parsed_task_ok(
                    t0,
                    match r {
                        Some(p) => p.task,
                        None => None,
                    },
                    index_path@,
                    line@,
                    (line_num + 1) as usize,
                ),
            r matches Some(p) ==> p.index_path@ == index_path@,
    {
        let mut qp = QuestParser::new(copy_string(&self.source.name));
        proof {
            assert(qp.quest.skills@ =~= Seq::<(Seq<char>, i32)>::empty());
            assert(strings_view(qp.quest.languages@) =~= Seq::<Seq<char>>::empty());
            assert(strings_view(qp.quest.requires@) =~= Seq::<Seq<char>>::empty());
        }
        let quest = qp.parse_quest(index_path, line.to_string(), line_num);
        if let Some(q) = quest {
            assert(heading_quest(old(self).source.name@, &q, heading_body(line@).unwrap()));
            self.__add_quest(q);
            return None;
        }
        let mut tp = TaskParser::new(index_path, self.source.name.as_str());
        let ghost t0 = tp.task.unwrap();
        tp.parse_line(line, line_num + 1);
        assert(parsed_task_ok(t0, tp.task, index_path@, line@, (line_num + 1) as usize));
        assert(fresh_task(t0, old(self).source.name@));
        if tp.task.is_some() {
            Some(tp)
        } else {
            None
        }
    }

    /// Keeps, for each filter `(pattern, destiny)` in order and each quest
    /// that matches it (see [`filter_step`]), either the quest itself or, when
    /// `destiny` is set, its tasks in the quest `destiny`. Nothing changes for
    /// the student's own source or without filters.
    pub fn add_filtered_quests(&mut self, quest_filters: Option<&KeyMap<String>>)
        ensures
            ({
                let skip = old(self).source.name@ == "sandbox"@ || quest_filters is None
                    || quest_filters.unwrap()@.len() == 0;
                if skip {
                    &&& final(self).quests == old(self).quests
                    &&& final(self).ordered_quests == old(self).ordered_quests
                    &&& final(self).active_quest == old(self).active_quest
                } else {
                    let st = filter_all(
                        (Seq::empty(), None),
                        old(self).source.name@,
                        str_view(quest_filters.unwrap()@),
                        summaries(old(self).quests@),
                    );
                    &&& state_of(final(self).quests@, final(self).active_quest) == st
                    &&& strings_view(final(self).ordered_quests@) == Seq::new(st.0.len(), |i: int| st.0[i].0)
                }
            }),
            final(self).source == old(self).source,
    {
        proof {
            reveal_strlit("sandbox");
        }
        if self.source.is_sandbox_source() {
            return;
        }
        let filters = match quest_filters {
            Some(f) => f,
            None => {
                return;
            },
        };
        if filters.is_empty() {
            return;
        }
        let ghost name = self.source.name@;
        // the quests as they are now
        let mut available: Vec<Quest> = Vec::new();
        let mut i: usize = 0;
        while i < self.quests.len()
            invariant
                i <= self.quests@.len(),
                available@.len() == i,
                forall|j: int| 0 <= j < i ==> summary(#[trigger] available@[j]) == summary(self.quests@[j].1),
            decreases self.quests@.len() - i,
        {
            let (_k, q) = self.quests.entry(i);
            available.push(q.clone());
            i = i + 1;
        }
        let ghost qs = summaries(self.quests@);
        assert(Seq::new(available@.len(), |j: int| summary(available@[j])) =~= qs);
        let mut result: KeyMap<Quest> = KeyMap::new();
        let mut ordered: Vec<String> = Vec::new();
        let mut active: Option<Quest> = None;
        let ghost fv = str_view(filters@);
        let mut f: usize = 0;
        assert(state_of(result@, active) =~= (Seq::<KeptQuest>::empty(), None::<QuestSummary>));
        assert(fv.take(0) =~= Seq::<(Seq<char>, Seq<char>)>::empty());
        assert(strings_view(ordered@) =~= Seq::new(state_of(result@, active).0.len(), |i: int| state_of(result@, active).0[i].0));
        while f < filters.len()
            invariant
                f <= filters@.len(),
                fv == str_view(filters@),
                name == self.source.name@,
                qs == Seq::new(available@.len(), |j: int| summary(available@[j])),
                state_of(result@, active) == filter_all((Seq::empty(), None), name, fv.take(f as int), qs),
                strings_view(ordered@) == Seq::new(result@.len(), |i: int| result@[i].0),
                self.source == old(self).source,
            decreases filters@.len() - f,
        {
            let (pattern, destiny) = filters.entry(f);
            proof {
                assert(fv.take(f + 1).drop_last() =~= fv.take(f as int));
                assert(fv[f as int] == (pattern@, destiny@));
            }
            let pattern_l = to_lower(pattern.as_str());
            let ghost st0 = state_of(result@, active);
            let mut j: usize = 0;
            assert(qs.take(0) =~= Seq::<QuestSummary>::empty());
            while j < available.len()
                invariant
                    j <= available@.len(),
                    name == self.source.name@,
                    qs == Seq::new(available@.len(), |q: int| summary(available@[q])),
                    pattern_l@ == lower_form(pattern@),
                    state_of(result@, active) == filter_quests(st0, name, pattern@, destiny@, qs.take(j as int)),
                    strings_view(ordered@) == Seq::new(result@.len(), |i: int| result@[i].0),
                decreases available@.len() - j,
            {
                let q = &available[j];
                proof {
                    assert(qs.take(j + 1).drop_last() =~= qs.take(j as int));
                    assert(qs[j as int] == summary(*q));
                }
                let title_l = to_lower(q.tree.get_title());
                let key_l = to_lower(q.tree.get_key());
                let mut key_match = String::new();
                push_char(&mut key_match, '@');
                push_str(&mut key_match, key_l.as_str());
                let matches = contains_str(title_l.as_str(), pattern_l.as_str()) || crate::chars::str_equal(
                    pattern_l.as_str(),
                    key_match.as_str(),
                );
                proof {
                    reveal_strlit("@");
                }
                assert(key_match@ =~= seq!['@'] + lower_form(q.tree@.key));
                if matches {
                    self.filter_one(&mut result, &mut ordered, &mut active, q, destiny);
                }
                j = j + 1;
            }
            proof {
                assert(qs.take(qs.len() as int) =~= qs);
            }
            f = f + 1;
        }
        assert(fv.take(fv.len() as int) =~= fv);
        self.quests = result;
        self.ordered_quests = ordered;
        self.active_quest = active;
    }

    /// One matching quest kept (see [`keep_step`]).
    fn filter_one(
        &self,
        result: &mut KeyMap<Quest>,
        ordered: &mut Vec<String>,
        active: &mut Option<Quest>,
        q: &Quest,
        destiny: &String,
    )
        requires
            strings_view(old(ordered)@) == Seq::new(old(result)@.len(), |i: int| old(result)@[i].0),
        ensures
            state_of(final(result)@, *final(active)) == keep_step(
                state_of(old(result)@, *old(active)),
                self.source.name@,
                destiny@,
                summary(*q),
            ),
            strings_view(final(ordered)@) == Seq::new(final(result)@.len(), |i: int| final(result)@[i].0),
    {
        let ghost st = state_of(result@, *active);
        let ghost r0 = result@;
        if destiny.as_str().unicode_len() == 0 {
            let k = q.tree.get_full_key();
            proof {
                lemma_kept_index_key(r0, k@, 0);
                lemma_kept_index(st.0, k@, 0);
                crate::keymap::lemma_key_index_found(r0, k@);
            }
            if !result.contains_key(k.as_str()) {
                let c = q.clone();
                let ghost before_o = ordered@;
                result.insert(copy_string(&k), c);
                let k2 = copy_string(&k);
                ordered.push(k2);
                proof {
                    crate::strs::lemma_strings_view_push(before_o, k2);
                    assert(result@ == r0.push((k@, c)));
                    assert(state_of(result@, None).0 =~= st.0.push((k@, quest_data(*q))));
                    assert(strings_view(ordered@) =~= Seq::new(result@.len(), |i: int| result@[i].0));
                }
            }
            *active = Some(q.clone());
        } else {
            let mut k = copy_string(&self.source.name);
            push_char(&mut k, '@');
            push_str(&mut k, destiny.as_str());
            assert(k@ =~= full_key_of(self.source.name@, destiny@));
            proof {
                lemma_kept_index_key(r0, k@, 0);
                lemma_kept_index(st.0, k@, 0);
                crate::keymap::lemma_key_index_found(r0, k@);
            }
            if !result.contains_key(k.as_str()) {
                let mut qd = Quest::new(copy_string(destiny), copy_string(destiny));
                qd.tree.set_remote_name(self.source.name.as_str());
                proof {
                    assert(strings_view(qd.requires@) =~= Seq::<Seq<char>>::empty());
                    assert(strings_view(qd.requires_ptr@) =~= Seq::<Seq<char>>::empty());
                    assert(strings_view(qd.required_by_ptr@) =~= Seq::<Seq<char>>::empty());
                    assert(strings_view(qd.languages@) =~= Seq::<Seq<char>>::empty());
                    assert(qd.skills@ =~= Seq::<(Seq<char>, i32)>::empty());
                    assert(tasks_data(qd.__tasks@) =~= Seq::<TaskData>::empty());
                    assert(qd.line@ =~= Seq::<char>::empty());
                    assert(qd.filename@ =~= Seq::<char>::empty());
                    assert(qd.remote_name@ =~= Seq::<char>::empty());
                    assert(quest_data(qd) == destiny_quest(self.source.name@, destiny@));
                }
                let ghost before_o = ordered@;
                result.insert(copy_string(&k), qd);
                let k2 = copy_string(&k);
                ordered.push(k2);
                proof {
                    crate::strs::lemma_strings_view_push(before_o, k2);
                    assert(result@ == r0.push((k@, qd)));
                    assert(state_of(result@, None).0 =~= st.0.push(
                        (k@, destiny_quest(self.source.name@, destiny@)),
                    ));
                    assert(strings_view(ordered@) =~= Seq::new(result@.len(), |i: int| result@[i].0));
                }
            }
            let ghost r1 = result@;
            let ghost es = state_of(r1, None).0;
            let _n = result.len();
            proof {
                crate::keymap::lemma_key_index_found(r1, k@);
                if key_index(r0, k@) is None {
                    crate::keymap::lemma_key_index(r1, k@, r0.len() as int);
                }
            }
            let idx = match result.find(k.as_str()) {
                Some(i) => i,
                None => {
                    return;
                },
            };
            proof {
                lemma_kept_index_key(r1, k@, 0);
                assert(kept_index(es, k@, 0) == Some(idx as int));
            }
            let mut entry = result.set_value(idx, Quest::new(String::new(), String::new()));
            let ghost d0 = quest_data(entry);
            let tasks = q.get_tasks();
            let ghost td = tasks_data(tasks@);
            assert(td.take(0) =~= Seq::<TaskData>::empty());
            assert(with_tasks(d0, td.take(0)).tasks =~= d0.tasks);
            assert(with_tasks(d0, td.take(0)) == d0);
            let mut i: usize = 0;
            while i < tasks.len()
                invariant
                    i <= tasks@.len(),
                    td == tasks_data(tasks@),
                    quest_data(entry) == with_tasks(d0, td.take(i as int)),
                decreases tasks@.len() - i,
            {
                let t = tasks[i].clone();
                let ghost before = quest_data(entry);
                entry.add_task(t);
                proof {
                    assert(task_data(t) == td[i as int]);
                    assert(td.take(i + 1) =~= td.take(i as int).push(td[i as int]));
                    assert(with_tasks(d0, td.take(i + 1)).tasks =~= with_tasks(before, seq![td[i as int]]).tasks);
                    assert(with_tasks(d0, td.take(i + 1)) == with_tasks(before, seq![td[i as int]]));
                }
                i = i + 1;
            }
            assert(td.take(td.len() as int) =~= td);
            *active = Some(entry.clone());
            result.set_value(idx, entry);
            proof {
                assert(state_of(result@, None).0 =~= es.update(idx as int, (k@, with_tasks(d0, quest_data(*q).tasks))));
                assert(strings_view(ordered@) =~= Seq::new(result@.len(), |i: int| result@[i].0));
            }
        }
    }

    /// Keeps the quests that have tasks and either no languages or
    /// `language`, each under its full key.
    pub fn filter_by_langugage_and_empty(&mut self, language: String)
        ensures
            state_of(final(self).quests@, None).0 == lang_filtered(old(self).quests@, language@),
            final(self).ordered_quests == old(self).ordered_quests,
            final(self).active_quest == old(self).active_quest,
            final(self).source == old(self).source,
    {
        let ghost m = self.quests@;
        let mut kept: KeyMap<Quest> = KeyMap::new();
        let mut i: usize = 0;
        assert(state_of(kept@, None).0 =~= lang_filtered(m.take(0), language@));
        while i < self.quests.len()
            invariant
                i <= self.quests@.len(),
                m == self.quests@,
                state_of(kept@, None).0 == lang_filtered(m.take(i as int), language@),
            decreases self.quests@.len() - i,
        {
            proof {
                assert(m.take(i + 1).drop_last() =~= m.take(i as int));
            }
            let (_k, q) = self.quests.entry(i);
            let mut has_lang = q.languages.len() == 0;
            let mut j: usize = 0;
            while j < q.languages.len() && !has_lang
                invariant
                    j <= q.languages@.len(),
                    has_lang ==> q.languages@.len() == 0 || strings_view(q.languages@).contains(language@),
                    q.languages@.len() == 0 ==> has_lang,
                    !has_lang ==> forall|x: int| 0 <= x < j ==> q.languages@[x]@ != language@,
                decreases q.languages@.len() - j + if has_lang { 0int } else { 1int },
            {
                if crate::chars::str_equal(q.languages[j].as_str(), language.as_str()) {
                    assert(strings_view(q.languages@)[j as int] == language@);
                    has_lang = true;
                } else {
                    j = j + 1;
                }
            }
            proof {
                if !has_lang && strings_view(q.languages@).contains(language@) {
                    let x = choose|x: int| 0 <= x < strings_view(q.languages@).len() && strings_view(q.languages@)[x] == language@;
                    assert(q.languages@[x]@ == language@);
                }
            }
            proof {
                assert(*q == m[i as int].1);
                assert(m.take(i + 1).last() == m[i as int]);
                assert((q.__tasks@.len() > 0 && has_lang) == lang_keeps(*q, language@));
            }
            if q.__tasks.len() > 0 && has_lang {
                let key = q.tree.get_full_key();
                let c = q.clone();
                let ghost before = kept@;
                let _n = kept.len();
                proof {
                    lemma_kept_index_key(before, key@, 0);
                    crate::keymap::lemma_key_index_found(before, key@);
                }
                kept.insert(key, c);
                proof {
                    assert(state_of(kept@, None).0 =~= insert_summary(state_of(before, None).0, key@, summary(c)));
                }
            }
            i = i + 1;
        }
        assert(m.take(m.len() as int) =~= m);
        self.quests = kept;
    }

    /// Keeps the quests for `language` without filters, or filters them
    /// (see [`GameBuilder::add_filtered_quests`]).
    pub fn __remove_empty_and_other_language_and_filtered(
        &mut self,
        language: &str,
        quest_filters: Option<KeyMap<String>>,
    ) -> (r: &mut Self)
        ensures
            (quest_filters is None || quest_filters.unwrap()@.len() == 0) ==> state_of(r.quests@, None).0
                == lang_filtered(old(self).quests@, language@) && r.ordered_quests == old(self).ordered_quests
                && r.active_quest == old(self).active_quest,
            quest_filters is Some && quest_filters.unwrap()@.len() > 0 && old(self).source.name@ == "sandbox"@
                ==> r.quests == old(self).quests && r.ordered_quests == old(self).ordered_quests
                && r.active_quest == old(self).active_quest,
            quest_filters is Some && quest_filters.unwrap()@.len() > 0 && old(self).source.name@ != "sandbox"@
                ==> ({
                let st = filter_all(
                    (Seq::empty(), None),
                    old(self).source.name@,
                    str_view(quest_filters.unwrap()@),
                    summaries(old(self).quests@),
                );
                &&& state_of(r.quests@, r.active_quest) == st
                &&& strings_view(r.ordered_quests@) == Seq::new(st.0.len(), |i: int| st.0[i].0)
            }),
            r.source == old(self).source,
            *final(self) == *final(r),
    {
        match quest_filters {
            None => {
                self.filter_by_langugage_and_empty(language.to_string());
            },
            Some(f) => {
                if f.len() == 0 {
                    self.filter_by_langugage_and_empty(language.to_string());
                } else {
                    self.add_filtered_quests(Some(&f));
                }
            },
        }
        self
    }

    /// The quests under their full keys.
    pub fn collect_quests(&self) -> (r: KeyMap<&Quest>)
        ensures
            r@.len() == collected(self.quests@).len(),
            forall|i: int| 0 <= i < r@.len() ==> (#[trigger] r@[i]).0 == collected(self.quests@)[i].0 && *r@[i].1
                == collected(self.quests@)[i].1,
    {
        let ghost m = self.quests@;
        let mut out: KeyMap<&Quest> = KeyMap::new();
        let mut i: usize = 0;
        assert(collected(m.take(0)) =~= Seq::<(Seq<char>, Quest)>::empty());
        while i < self.quests.len()
            invariant
                i <= self.quests@.len(),
                m == self.quests@,
                out@.len() == collected(m.take(i as int)).len(),
                forall|x: int| 0 <= x < out@.len() ==> (#[trigger] out@[x]).0 == collected(m.take(i as int))[x].0
                    && *out@[x].1 == collected(m.take(i as int))[x].1,
            decreases self.quests@.len() - i,
        {
            proof {
                assert(m.take(i + 1).drop_last() =~= m.take(i as int));
            }
            let (_k, q) = self.quests.entry(i);
            let key = q.tree.get_full_key();
            let ghost before = out@;
            let ghost cb = collected(m.take(i as int));
            proof {
                crate::keymap::lemma_key_index_found(before, key@);
                crate::keymap::lemma_key_index_found(cb, key@);
                lemma_index_same(before, cb, key@, 0);
            }
            out.insert(key, q);
            i = i + 1;
        }
        assert(m.take(m.len() as int) =~= m);
        out
    }

    /// Names every quest and task after the source, and gives each task the
    /// full key of its quest.
    pub fn __create_cross_references(&mut self)
        ensures
            final(self).quests@.len() == old(self).quests@.len(),
            forall|i: int| 0 <= i < final(self).quests@.len() ==> {
                let q = (#[trigger] final(self).quests@[i]).1;
                let q0 = old(self).quests@[i].1;
                &&& final(self).quests@[i].0 == old(self).quests@[i].0
                &&& q.tree@ == (TreeItemView { remote_name: old(self).source.name@, ..q0.tree@ })
                &&& q.__tasks@.len() == q0.__tasks@.len()
                &&& forall|j: int| 0 <= j < q.__tasks@.len() ==> {
                    &&& (#[trigger] q.__tasks@[j]).identity@ == (TreeItemView {
                        remote_name: old(self).source.name@,
                        ..q0.__tasks@[j].identity@
                    })
                    &&& q.__tasks@[j].quest_key@ == full_key_of(old(self).source.name@, q0.tree@.key)
                }
            },
            final(self).source == old(self).source,
    {
        let ghost m = self.quests@;
        let ghost name = self.source.name@;
        let mut i: usize = 0;
        while i < self.quests.len()
            invariant
                i <= self.quests@.len(),
                self.quests@.len() == m.len(),
                name == self.source.name@,
                self.source == old(self).source,
                m == old(self).quests@,
                forall|x: int| i <= x < m.len() ==> #[trigger] self.quests@[x] == m[x],
                forall|x: int| 0 <= x < i ==> {
                    let q = (#[trigger] self.quests@[x]).1;
                    let q0 = m[x].1;
                    &&& self.quests@[x].0 == m[x].0
                    &&& q.tree@ == (TreeItemView { remote_name: name, ..q0.tree@ })
                    &&& q.__tasks@.len() == q0.__tasks@.len()
                    &&& forall|j: int| 0 <= j < q.__tasks@.len() ==> {
                        &&& (#[trigger] q.__tasks@[j]).identity@ == (TreeItemView {
                            remote_name: name,
                            ..q0.__tasks@[j].identity@
                        })
                        &&& q.__tasks@[j].quest_key@ == full_key_of(name, q0.tree@.key)
                    }
                },
            decreases self.quests@.len() - i,
        {
            let ghost before = self.quests@;
            let mut q = self.quests.set_value(i, Quest::new(String::new(), String::new()));
            let ghost q0 = q;
            q.tree.set_remote_name(self.source.name.as_str());
            let key = q.tree.get_full_key();
            let mut tasks: Vec<Task> = Vec::new();
            std::mem::swap(&mut tasks, &mut q.__tasks);
            let mut j: usize = 0;
            while j < tasks.len()
                invariant
                    j <= tasks@.len(),
                    tasks@.len() == q0.__tasks@.len(),
                    name == self.source.name@,
                    key@ == full_key_of(name, q0.tree@.key),
                    forall|y: int| j <= y < tasks@.len() ==> #[trigger] tasks@[y] == q0.__tasks@[y],
                    forall|y: int| 0 <= y < j ==> {
                        &&& (#[trigger] tasks@[y]).identity@ == (TreeItemView { remote_name: name, ..q0.__tasks@[y].identity@ })
                        &&& tasks@[y].quest_key@ == key@
                    },
                decreases tasks@.len() - j,
            {
                let ghost prev = tasks@;
                let mut t = tasks.remove(j);
                t.identity.set_remote_name(self.source.name.as_str());
                t.quest_key = copy_string(&key);
                tasks.insert(j, t);
                assert(tasks@ =~= prev.update(j as int, t));
                j = j + 1;
            }
            q.__tasks = tasks;
            self.quests.set_value(i, q);
            proof {
                assert(self.quests@ == before.update(i as int, (before[i as int].0, q)));
            }
            i = i + 1;
        }
    }
}

} // verus!
