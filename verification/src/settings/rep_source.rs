//! A source of quests: a local folder or a git repository, with filters,
//! read from and written to a configuration object.

use crate::chars::{char_string, copy_string, push_char, push_str};
use crate::dict::{as_bool_spec, dict_get, str_at, DictValue};
use crate::game::task_parser::parent_or_empty;
use crate::keymap::{insert_entry, str_view, KeyMap};
use crate::paths::{join, join_spec, parent, std_parent};
use crate::settings::git_cache::{hex_spec, sha1_of_text, GitCache};
use crate::strs::{ends_with, ends_with_spec};
use vstd::prelude::*;

verus! {

/// Where a source's index comes from.
#[derive(Debug, Clone, Copy, PartialEq, Eq, Structural)]
pub enum SourceType {
    LocalFile,
    GitSource,
}

impl SourceType {
    /// The name of the type: `local` or `git`.
    pub fn to_string(&self) -> (r: String)
        ensures
            r@ == match *self {
                SourceType::LocalFile => "local"@,
                SourceType::GitSource => "git"@,
            },
    {
        match self {
            SourceType::LocalFile => "local".to_string(),
            SourceType::GitSource => "git".to_string(),
        }
    }
}

/// The name of the student's own source.
pub const STUDENT_SANDBOX_NAME: &'static str = "sandbox";

/// The keys of a source's configuration object.
pub struct Keys;

impl Keys {
    pub const NAME: &'static str = "name";
    pub const TARGET: &'static str = "target";
    pub const TYPE: &'static str = "type";
    pub const INDEX: &'static str = "index";
    pub const WRITEABLE: &'static str = "writeable";
    pub const QUESTS: &'static str = "quests";
    pub const TASKS: &'static str = "tasks";
    pub const BRANCH: &'static str = "branch";
}

/// A source of quests.
#[derive(Debug)]
pub struct RepSource {
    pub name: String,
    pub target: String,
    pub source_type: SourceType,
    pub writeable: bool,
    pub index: String,
    pub branch: Option<String>,
    pub quests: Option<KeyMap<String>>,
    pub tasks: Option<KeyMap<String>>,
    pub rep_local_workspace: Option<String>,
    pub rep_cache_folder: Option<String>,
    pub git_cache: Option<GitCache>,
}

/// The entries of an optional filter map.
pub open spec fn filters_view(m: Option<KeyMap<String>>) -> Option<Seq<(Seq<char>, Seq<char>)>> {
    match m {
        Some(k) => Some(str_view(k@)),
        None => None,
    }
}

pub open spec fn opt_str(o: Option<String>) -> Option<Seq<char>> {
    match o {
        Some(s) => Some(s@),
        None => None,
    }
}

/// A list of strings as a filter map: each string a key with an empty
/// value; other items skipped.
pub open spec fn list_map(xs: Seq<DictValue>) -> Seq<(Seq<char>, Seq<char>)>
    decreases xs.len(),
{
    if xs.len() == 0 {
        Seq::empty()
    } else {
        let acc = list_map(xs.drop_last());
        match xs.last() {
            DictValue::Str(s) => insert_entry(acc, s@, Seq::empty()),
            _ => acc,
        }
    }
}

/// An object as a filter map: each key with its string value (empty when
/// the value is no string).
pub open spec fn object_map(es: Seq<(String, DictValue)>) -> Seq<(Seq<char>, Seq<char>)>
    decreases es.len(),
{
    if es.len() == 0 {
        Seq::empty()
    } else {
        let acc = object_map(es.drop_last());
        let v = match es.last().1 {
            DictValue::Str(s) => s@,
            _ => Seq::empty(),
        };
        insert_entry(acc, es.last().0@, v)
    }
}

/// A filter map read from a value: from a list or an object; `None` for
/// anything else.
pub open spec fn str_map_spec(v: Option<DictValue>) -> Option<Seq<(Seq<char>, Seq<char>)>> {
    match v {
        Some(DictValue::Array(xs)) => Some(list_map(xs@)),
        Some(DictValue::Object(es)) => Some(object_map(es@)),
        _ => None,
    }
}

/// The name a configuration gives: its `name`, else `alias`, else
/// `database`; `dflt` without any.
pub open spec fn name_from(d: DictValue, dflt: Seq<char>) -> Seq<char> {
    match str_at(d, "name"@) {
        Some(s) => s,
        None => match str_at(d, "alias"@) {
            Some(s) => s,
            None => match str_at(d, "database"@) {
                Some(s) => s,
                None => dflt,
            },
        },
    }
}

/// The target a configuration gives: its `target`, else its `link` (the
/// folder of the link when it names a `README.md`); `dflt` without either.
pub open spec fn target_from(d: DictValue, dflt: Seq<char>) -> Seq<char> {
    match str_at(d, "target"@) {
        Some(t) => t,
        None => match str_at(d, "link"@) {
            Some(v) => if ends_with_spec(v, "README.md"@) {
                parent_or_empty(v)
            } else {
                v
            },
            None => dflt,
        },
    }
}

/// A source after loading a configuration into `s0`.
pub open spec fn loaded_source(s0: RepSource, s: RepSource, d: DictValue) -> bool {
    let name = name_from(d, s0.name@);
    &&& s.name@ == name
    &&& s.target@ == target_from(d, s0.target@)
    &&& opt_str(s.branch) == Some(
        match str_at(d, "branch"@) {
            Some(b) => b,
            None => "master"@,
        },
    )
    &&& s.source_type == if str_at(d, "type"@) == Some("local"@) {
        SourceType::LocalFile
    } else {
        SourceType::GitSource
    }
    &&& filters_view(s.quests) == match str_map_spec(dict_get(d, "quests"@)) {
        Some(m) => Some(m),
        None => str_map_spec(dict_get(d, "filters"@)),
    }
    &&& filters_view(s.tasks) == str_map_spec(dict_get(d, "tasks"@))
    &&& s.writeable == if name == "sandbox"@ {
        true
    } else {
        match as_bool_spec(dict_get(d, "writeable"@)) {
            Some(b) => b,
            None => s0.writeable,
        }
    }
    &&& s.index@ == match str_at(d, "index"@) {
        Some(i) => i,
        None => "README.md"@,
    }
    &&& opt_str(s.rep_local_workspace) == opt_str(s0.rep_local_workspace)
    &&& opt_str(s.rep_cache_folder) == opt_str(s0.rep_cache_folder)
}

/// Whether `v` is the string `s`.
pub open spec fn is_str(v: DictValue, s: Seq<char>) -> bool {
    v matches DictValue::Str(x) && x@ == s
}

/// Whether `v` is an object holding exactly the entries `m`, as strings.
pub open spec fn is_str_object(v: DictValue, m: Seq<(Seq<char>, Seq<char>)>) -> bool {
    v matches DictValue::Object(es) && es@.len() == m.len() && forall|i: int|
        0 <= i < m.len() ==> (#[trigger] es@[i]).0@ == m[i].0 && is_str(es@[i].1, m[i].1)
}

/// Whether `v` is how a filter map is written: null when absent.
pub open spec fn saved_filters(v: DictValue, m: Option<Seq<(Seq<char>, Seq<char>)>>) -> bool {
    match m {
        None => v is Null,
        Some(entries) => is_str_object(v, entries),
    }
}

/// Whether a branch is written: a set branch other than `master`.
pub open spec fn branch_saved(b: Option<String>) -> bool {
    b matches Some(x) && x@ != "master"@
}

/// Whether `d` is the configuration object of `s`: `name`, `target`,
/// `index`, `type`, `writeable`, then `branch` when it is set and not
/// `master`, then `quests` and `tasks`.
pub open spec fn saved_source(s: RepSource, d: DictValue) -> bool {
    let k = if branch_saved(s.branch) {
        1int
    } else {
        0int
    };
    &&& d is Object
    &&& d->Object_0@.len() == 7 + k
    &&& d->Object_0@[0].0@ == "name"@ && is_str(d->Object_0@[0].1, s.name@)
    &&& d->Object_0@[1].0@ == "target"@ && is_str(d->Object_0@[1].1, s.target@)
    &&& d->Object_0@[2].0@ == "index"@ && is_str(d->Object_0@[2].1, s.index@)
    &&& d->Object_0@[3].0@ == "type"@ && is_str(
        d->Object_0@[3].1,
        if s.source_type == SourceType::LocalFile {
            "local"@
        } else {
            "git"@
        },
    )
    &&& d->Object_0@[4].0@ == "writeable"@ && d->Object_0@[4].1 == DictValue::Bool(s.writeable)
    &&& branch_saved(s.branch) ==> d->Object_0@[5].0@ == "branch"@ && is_str(
        d->Object_0@[5].1,
        s.branch.unwrap()@,
    )
    &&& d->Object_0@[5 + k].0@ == "quests"@ && saved_filters(d->Object_0@[5 + k].1, filters_view(s.quests))
    &&& d->Object_0@[6 + k].0@ == "tasks"@ && saved_filters(d->Object_0@[6 + k].1, filters_view(s.tasks))
}


proof fn lemma_object_map_distinct(es: Seq<(String, DictValue)>, m: Seq<(Seq<char>, Seq<char>)>)
    requires
        es.len() == m.len(),
        crate::keymap::keys_distinct(m),
        forall|i: int| 0 <= i < m.len() ==> (#[trigger] es[i]).0@ == m[i].0 && is_str(es[i].1, m[i].1),
    ensures
        object_map(es) == m,
    decreases es.len(),
{
    if es.len() > 0 {
        let m0 = m.drop_last();
        assert(crate::keymap::keys_distinct(m0)) by {
            assert forall|a: int, b: int| 0 <= a < m0.len() && 0 <= b < m0.len() && a != b implies (
            #[trigger] m0[a]).0 != (#[trigger] m0[b]).0 by {
                assert(m0[a] == m[a] && m0[b] == m[b]);
            }
        }
        assert forall|i: int| 0 <= i < m0.len() implies (#[trigger] es.drop_last()[i]).0@ == m0[i].0 && is_str(
            es.drop_last()[i].1,
            m0[i].1,
        ) by {
            assert(es.drop_last()[i] == es[i]);
        }
        lemma_object_map_distinct(es.drop_last(), m0);
        let k = es.last().0@;
        crate::keymap::lemma_key_index_found(m0, k);
        if crate::keymap::key_index(m0, k) is Some {
            let j = crate::keymap::key_index(m0, k).unwrap();
            assert(m[j].0 == m[m.len() - 1].0);
        }
        assert(m0.push((k, m.last().1)) =~= m);
    }
}

/// What saving writes under the filter keys reads back as the same filters.
proof fn lemma_filters_roundtrip(v: DictValue, m: Option<KeyMap<String>>)
    requires
        saved_filters(v, filters_view(m)),
        m is Some ==> crate::keymap::keys_distinct(str_view(m.unwrap()@)),
    ensures
        str_map_spec(Some(v)) == filters_view(m),
{
    match m {
        Some(k) => {
            let es = v->Object_0@;
            lemma_object_map_distinct(es, str_view(k@));
        },
        None => {},
    }
}

/// Loading the configuration a source saves gives back its name, target,
/// index, type and filters; it is writeable as it was (always, for the
/// student's own source); its branch is the one saved (`master` when it had
/// none or `master`).
pub proof fn lemma_save_load(s: RepSource, d: DictValue, s0: RepSource, r: RepSource)
    requires
        saved_source(s, d),
        loaded_source(s0, r, d),
        s.quests is Some ==> crate::keymap::keys_distinct(str_view(s.quests.unwrap()@)),
        s.tasks is Some ==> crate::keymap::keys_distinct(str_view(s.tasks.unwrap()@)),
    ensures
        r.name@ == s.name@,
        r.target@ == s.target@,
        r.index@ == s.index@,
        r.source_type == s.source_type,
        r.writeable == (s.writeable || s.name@ == "sandbox"@),
        opt_str(r.branch) == Some(
            if branch_saved(s.branch) {
                s.branch.unwrap()@
            } else {
                "master"@
            },
        ),
        filters_view(r.quests) == filters_view(s.quests),
        filters_view(r.tasks) == filters_view(s.tasks),
{
    reveal_strlit("name");
    reveal_strlit("alias");
    reveal_strlit("database");
    reveal_strlit("target");
    reveal_strlit("link");
    reveal_strlit("index");
    reveal_strlit("type");
    reveal_strlit("writeable");
    reveal_strlit("branch");
    reveal_strlit("quests");
    reveal_strlit("filters");
    reveal_strlit("tasks");
    reveal_strlit("local");
    reveal_strlit("git");
    let es = d->Object_0@;
    let k: int = if branch_saved(s.branch) { 1 } else { 0 };
    assert("name"@.len() == 4 && "alias"@.len() == 5 && "database"@.len() == 8 && "target"@.len() == 6);
    assert("link"@.len() == 4 && "index"@.len() == 5 && "type"@.len() == 4 && "writeable"@.len() == 9);
    assert("branch"@.len() == 6 && "quests"@.len() == 6 && "filters"@.len() == 7 && "tasks"@.len() == 5);
    assert("name"@[0] == 'n' && "alias"@[0] == 'a' && "database"@[0] == 'd' && "target"@[0] == 't');
    assert("link"@[0] == 'l' && "index"@[0] == 'i' && "type"@[0] == 't' && "writeable"@[0] == 'w');
    assert("branch"@[0] == 'b' && "quests"@[0] == 'q' && "filters"@[0] == 'f' && "tasks"@[0] == 't');
    assert("name"@[1] == 'a' && "link"@[1] == 'i' && "type"@[1] == 'y');
    assert("target"@[1] == 'a' && "branch"@[1] == 'r' && "quests"@[1] == 'u');
    assert("alias"@[1] == 'l' && "index"@[1] == 'n' && "tasks"@[1] == 'a');
    assert("local"@[0] == 'l' && "git"@.len() == 3 && "local"@.len() == 5);
    let n = es.len() as int;
    assert forall|q: int| 0 <= q < n implies (#[trigger] es[q]).0@ != "link"@ && es[q].0@ != "filters"@
        && es[q].0@ != "alias"@ && es[q].0@ != "database"@ by {
        assert(q == 0 || q == 1 || q == 2 || q == 3 || q == 4 || q == 5 || q == 6 || q == 7);
    }
    crate::dict::lemma_entry_index_at(es, "name"@, 0, 0);
    crate::dict::lemma_entry_index_at(es, "target"@, 0, 1);
    crate::dict::lemma_entry_index_at(es, "index"@, 0, 2);
    crate::dict::lemma_entry_index_at(es, "type"@, 0, 3);
    crate::dict::lemma_entry_index_at(es, "writeable"@, 0, 4);
    if branch_saved(s.branch) {
        crate::dict::lemma_entry_index_at(es, "branch"@, 0, 5);
    } else {
        assert forall|q: int| 0 <= q < n implies (#[trigger] es[q]).0@ != "branch"@ by {
            assert(q == 0 || q == 1 || q == 2 || q == 3 || q == 4 || q == 5 || q == 6);
        }
        crate::dict::lemma_entry_index_absent(es, "branch"@, 0);
    }
    assert forall|q: int| 0 <= q < 5 + k implies (#[trigger] es[q]).0@ != "quests"@ by {
        assert(q == 0 || q == 1 || q == 2 || q == 3 || q == 4 || q == 5);
    }
    crate::dict::lemma_entry_index_at(es, "quests"@, 0, 5 + k);
    assert forall|q: int| 0 <= q < 6 + k implies (#[trigger] es[q]).0@ != "tasks"@ by {
        assert(q == 0 || q == 1 || q == 2 || q == 3 || q == 4 || q == 5 || q == 6);
    }
    crate::dict::lemma_entry_index_at(es, "tasks"@, 0, 6 + k);
    crate::dict::lemma_entry_index_absent(es, "link"@, 0);
    crate::dict::lemma_entry_index_absent(es, "filters"@, 0);
    crate::dict::lemma_entry_index_absent(es, "alias"@, 0);
    crate::dict::lemma_entry_index_absent(es, "database"@, 0);
    lemma_filters_roundtrip(es[5 + k].1, s.quests);
    lemma_filters_roundtrip(es[6 + k].1, s.tasks);
}

fn str_value(s: &str) -> (r: DictValue)
    ensures
        is_str(r, s@),
{
    DictValue::Str(s.to_string())
}

fn filters_value(m: &Option<KeyMap<String>>) -> (r: DictValue)
    ensures
        saved_filters(r, filters_view(*m)),
{
    match m {
        None => DictValue::Null,
        Some(k) => {
            let mut es: Vec<(String, DictValue)> = Vec::new();
            let mut i: usize = 0;
            while i < k.len()
                invariant
                    i <= k@.len(),
                    es@.len() == i,
                    forall|j: int| 0 <= j < i ==> (#[trigger] es@[j]).0@ == str_view(k@)[j].0 && is_str(
                        es@[j].1,
                        str_view(k@)[j].1,
                    ),
                decreases k@.len() - i,
            {
                let (key, value) = k.entry(i);
                es.push((copy_string(key), str_value(value.as_str())));
                i = i + 1;
            }
            DictValue::Object(es)
        },
    }
}

impl RepSource {
    /// A local source named `alias` with no target, read-only, index
    /// `README.md`, no branch, filters or folders.
    pub fn new(alias: &str, git_cache: Option<GitCache>) -> (r: Self)
        ensures
            r.name@ == alias@,
            r.target@ == Seq::<char>::empty(),
            r.source_type == SourceType::LocalFile,
            !r.writeable,
            r.index@ == "README.md"@,
            r.branch is None,
            r.quests is None,
            r.tasks is None,
            r.rep_local_workspace is None,
            r.rep_cache_folder is None,
            r.git_cache == git_cache,
    {
        RepSource {
            name: alias.to_string(),
            target: String::new(),
            source_type: SourceType::LocalFile,
            writeable: false,
            index: "README.md".to_string(),
            branch: None,
            quests: None,
            tasks: None,
            rep_local_workspace: None,
            rep_cache_folder: None,
            git_cache,
        }
    }

    /// The source with a git cache.
    pub fn set_git_cache(self, git_cache: GitCache) -> (r: Self)
        ensures
            r == (RepSource { git_cache: Some(git_cache), ..self }),
    {
        let mut s = self;
        s.git_cache = Some(git_cache);
        s
    }

    /// The source as a local folder `target`, writeable or not.
    pub fn set_local_source(self, target: &str, writeable: bool) -> (r: Self)
        ensures
            r.source_type == SourceType::LocalFile,
            r.target@ == target@,
            r.writeable == writeable,
            r.name == self.name,
            r.index == self.index,
            r.branch == self.branch,
            r.quests == self.quests,
            r.tasks == self.tasks,
            r.rep_local_workspace == self.rep_local_workspace,
            r.rep_cache_folder == self.rep_cache_folder,
    {
        let mut s = self;
        s.source_type = SourceType::LocalFile;
        s.target = target.to_string();
        s.writeable = writeable;
        s
    }

    /// Whether this is the student's own source.
    pub fn is_sandbox_source(&self) -> (r: bool)
        ensures
            r == (self.name@ == STUDENT_SANDBOX_NAME@),
    {
        crate::chars::str_equal(self.name.as_str(), STUDENT_SANDBOX_NAME)
    }

    /// The source as the student's own: named `sandbox`, the local folder
    /// `sandbox`, writeable.
    pub fn set_student_sandbox(self) -> (r: Self)
        ensures
            r.name@ == STUDENT_SANDBOX_NAME@,
            r.source_type == SourceType::LocalFile,
            r.target@ == STUDENT_SANDBOX_NAME@,
            r.writeable,
            r.index == self.index,
            r.quests == self.quests,
            r.tasks == self.tasks,
    {
        let mut s = self;
        s.name = STUDENT_SANDBOX_NAME.to_string();
        s.set_local_source(STUDENT_SANDBOX_NAME, true)
    }

    /// The quest and task filters.
    pub fn get_filters(&self) -> (r: (Option<&KeyMap<String>>, Option<&KeyMap<String>>))
        ensures
            r.0 == match &self.quests {
                Some(m) => Some(m),
                None => None,
            },
            r.1 == match &self.tasks {
                Some(m) => Some(m),
                None => None,
            },
    {
        let q = match &self.quests {
            Some(m) => Some(m),
            None => None,
        };
        let t = match &self.tasks {
            Some(m) => Some(m),
            None => None,
        };
        (q, t)
    }

    /// The source as the git repository `target` on `branch`.
    pub fn set_git_source(self, target: &str, branch: Option<String>) -> (r: Self)
        ensures
            r.source_type == SourceType::GitSource,
            r.target@ == target@,
            r.branch == branch,
            r.name == self.name,
            r.writeable == self.writeable,
            r.index == self.index,
            r.quests == self.quests,
            r.tasks == self.tasks,
    {
        let mut s = self;
        s.source_type = SourceType::GitSource;
        s.target = target.to_string();
        s.branch = branch;
        s
    }

    /// Whether the source is a local folder.
    pub fn is_local(&self) -> (r: bool)
        ensures
            r == (self.source_type == SourceType::LocalFile),
    {
        self.source_type == SourceType::LocalFile
    }

    /// The source, writeable or not.
    pub fn set_writeable(self, writeable: bool) -> (r: Self)
        ensures
            r == (RepSource { writeable, ..self }),
    {
        let mut s = self;
        s.writeable = writeable;
        s
    }

    /// Whether the source is writeable.
    pub fn get_writeable(&self) -> (r: bool)
        ensures
            r == self.writeable,
    {
        self.writeable
    }

    /// Whether the source is read-only: a git source always, a local one
    /// when not writeable.
    pub fn is_read_only(&self) -> (r: bool)
        ensures
            r == match self.source_type {
                SourceType::LocalFile => !self.writeable,
                SourceType::GitSource => true,
            },
    {
        match self.source_type {
            SourceType::LocalFile => !self.writeable,
            SourceType::GitSource => true,
        }
    }

    /// The address or folder of the source.
    pub fn get_url_link(&self) -> (r: &str)
        ensures
            r@ == self.target@,
    {
        self.target.as_str()
    }

    /// Whether the source is a git repository.
    pub fn is_git_source(&self) -> (r: bool)
        ensures
            r == (self.source_type == SourceType::GitSource),
    {
        self.source_type == SourceType::GitSource
    }

    /// Whether the source is a local folder.
    pub fn is_local_source(&self) -> (r: bool)
        ensures
            r == (self.source_type == SourceType::LocalFile),
    {
        self.source_type == SourceType::LocalFile
    }

    /// The folder of the source: the workspace for the student's own source,
    /// the target for a local one, the repository's cache folder for a git
    /// one (bringing the repository into it is left to the caller; see
    /// [`RepSource::get_source_folder_fetched`] for the folder that fetching
    /// gave).
    pub fn get_source_folder(&self) -> (r: Result<String, String>)
        ensures
            self.name@ == STUDENT_SANDBOX_NAME@ ==> match r {
                Ok(f) => opt_str(self.rep_local_workspace) == Some(f@),
                Err(e) => self.rep_local_workspace is None && e@ == "Local workspace is not set"@,
            },
            self.name@ != STUDENT_SANDBOX_NAME@ && self.source_type == SourceType::LocalFile ==> r is Ok
                && r->Ok_0@ == self.target@,
            self.name@ != STUDENT_SANDBOX_NAME@ && self.source_type == SourceType::GitSource ==> match r {
                Ok(f) => self.git_cache is Some && f@ == join_spec(
                    self.git_cache.unwrap().cache_dir@,
                    hex_spec(sha1_of_text(self.target@)),
                ),
                Err(e) => self.git_cache is None && e@ == "Git cache is not set for git source"@,
            },
    {
        if self.is_sandbox_source() {
            return match self.get_workspace() {
                Ok(w) => Ok(copy_string(w)),
                Err(e) => Err(e),
            };
        }
        if self.source_type == SourceType::LocalFile {
            return Ok(copy_string(&self.target));
        }
        match &self.git_cache {
            None => Err("Git cache is not set for git source".to_string()),
            Some(cache) => Ok(cache.__repo_dir(self.target.as_str())),
        }
    }

    /// The index file of the source: the index inside its folder.
    pub fn get_source_readme(&self) -> (r: Result<String, String>)
        ensures
            match (r, self.get_source_folder_spec()) {
                (Ok(p), Some(f)) => p@ == join_spec(f, self.index@),
                (Err(_), None) => true,
                _ => false,
            },
    {
        match self.get_source_folder() {
            Ok(folder) => Ok(join(folder.as_str(), self.index.as_str())),
            Err(e) => Err(e),
        }
    }

    /// The folder of the source, when it has one (see
    /// [`RepSource::get_source_folder`]).
    pub open spec fn get_source_folder_spec(&self) -> Option<Seq<char>> {
        if self.name@ == STUDENT_SANDBOX_NAME@ {
            opt_str(self.rep_local_workspace)
        } else if self.source_type == SourceType::LocalFile {
            Some(self.target@)
        } else {
            match self.git_cache {
                Some(c) => Some(join_spec(c.cache_dir@, hex_spec(sha1_of_text(self.target@)))),
                None => None,
            }
        }
    }

    /// The folder of the source once its repository was fetched: as
    /// [`RepSource::get_source_folder`], except that a git source with a
    /// cache gets `repo_dir`, what fetching its repository into the cache
    /// gave, and an error when fetching gave nothing.
    pub fn get_source_folder_fetched(&self, repo_dir: Option<String>) -> (r: Result<String, String>)
        ensures
            self.name@ == STUDENT_SANDBOX_NAME@ ==> match r {
                Ok(f) => opt_str(self.rep_local_workspace) == Some(f@),
                Err(e) => self.rep_local_workspace is None && e@ == "Local workspace is not set"@,
            },
            self.name@ != STUDENT_SANDBOX_NAME@ && self.source_type == SourceType::LocalFile ==> r is Ok
                && r->Ok_0@ == self.target@,
            self.name@ != STUDENT_SANDBOX_NAME@ && self.source_type == SourceType::GitSource ==> match r {
                Ok(f) => self.git_cache is Some && repo_dir is Some && f@ == repo_dir.unwrap()@,
                Err(e) => (self.git_cache is None && e@ == "Git cache is not set for git source"@) || (
                self.git_cache is Some && repo_dir is None && e@ == "Failed to get repository directory"@),
            },
    {
        if self.is_sandbox_source() || self.source_type == SourceType::LocalFile {
            return self.get_source_folder();
        }
        if self.git_cache.is_none() {
            return Err("Git cache is not set for git source".to_string());
        }
        match repo_dir {
            Some(d) => Ok(d),
            None => Err("Failed to get repository directory".to_string()),
        }
    }

    /// The index file of the source once its repository was fetched: the
    /// index inside the folder of [`RepSource::get_source_folder_fetched`].
    pub fn get_source_readme_fetched(&self, repo_dir: Option<String>) -> (r: Result<String, String>)
        ensures
            match (r, self.get_source_folder_fetched_spec(repo_dir)) {
                (Ok(p), Ok(f)) => p@ == join_spec(f, self.index@),
                (Err(e), Err(e2)) => e@ == e2,
                _ => false,
            },
    {
        match self.get_source_folder_fetched(repo_dir) {
            Ok(folder) => Ok(join(folder.as_str(), self.index.as_str())),
            Err(e) => Err(e),
        }
    }

    /// What [`RepSource::get_source_folder_fetched`] gives, as values.
    pub open spec fn get_source_folder_fetched_spec(&self, repo_dir: Option<String>) -> Result<Seq<char>, Seq<char>> {
        if self.name@ == STUDENT_SANDBOX_NAME@ {
            match self.rep_local_workspace {
                Some(w) => Ok(w@),
                None => Err("Local workspace is not set"@),
            }
        } else if self.source_type == SourceType::LocalFile {
            Ok(self.target@)
        } else if self.git_cache is None {
            Err("Git cache is not set for git source"@)
        } else {
            match repo_dir {
                Some(d) => Ok(d@),
                None => Err("Failed to get repository directory"@),
            }
        }
    }

    /// The source with the given filters.
    pub fn set_filters(self, quests: Option<KeyMap<String>>, tasks: Option<KeyMap<String>>) -> (r: Self)
        ensures
            r == (RepSource { quests, tasks, ..self }),
    {
        let mut s = self;
        s.quests = quests;
        s.tasks = tasks;
        s
    }

    /// Sets the local workspace and the cache folder.
    pub fn set_repo_globals(&mut self, local_workspace: String, cache_folder: String)
        ensures
            *final(self) == (RepSource {
                rep_local_workspace: Some(local_workspace),
                rep_cache_folder: Some(cache_folder),
                ..*old(self)
            }),
    {
        self.rep_local_workspace = Some(local_workspace);
        self.rep_cache_folder = Some(cache_folder);
    }

    /// The cache folder, or an error when it is not set.
    pub fn get_repo_cache_folder(&self) -> (r: Result<&String, String>)
        ensures
            match r {
                Ok(f) => self.rep_cache_folder == Some(*f),
                Err(e) => self.rep_cache_folder is None && e@ == "Local cache folder is not set"@,
            },
    {
        match &self.rep_cache_folder {
            Some(f) => Ok(f),
            None => Err("Local cache folder is not set".to_string()),
        }
    }

    /// The local workspace, or an error when it is not set.
    pub fn get_workspace(&self) -> (r: Result<&String, String>)
        ensures
            match r {
                Ok(f) => self.rep_local_workspace == Some(*f),
                Err(e) => self.rep_local_workspace is None && e@ == "Local workspace is not set"@,
            },
    {
        match &self.rep_local_workspace {
            Some(f) => Ok(f),
            None => Err("Local workspace is not set".to_string()),
        }
    }

    /// Where a task of a read-only source is worked on: the task's key
    /// inside the workspace; an error for a source that is not read-only.
    pub fn get_task_workspace(&self, task_key: &str) -> (r: Result<String, String>)
        requires
            self.source_type == SourceType::GitSource || !self.writeable ==> self.rep_local_workspace is Some,
        ensures
            match r {
                Ok(p) => (self.source_type == SourceType::GitSource || !self.writeable) && p@ == join_spec(
                    self.rep_local_workspace.unwrap()@,
                    task_key@,
                ),
                Err(e) => !(self.source_type == SourceType::GitSource || !self.writeable)
                    && e@ == "Source is not read-only, task workspace is the same as source workspace"@,
            },
    {
        if !self.is_read_only() {
            return Err("Source is not read-only, task workspace is the same as source workspace".to_string());
        }
        match &self.rep_local_workspace {
            Some(w) => Ok(join(w.as_str(), task_key)),
            None => Err(String::new()),
        }
    }

    /// A filter map read from a list of strings (each a key with an empty
    /// value) or from an object (each key with its string value, empty for
    /// other values); `None` for anything else.
    fn parse_str_map(value: Option<&DictValue>) -> (r: Option<KeyMap<String>>)
        ensures
            filters_view(r) == str_map_spec(match value {
                Some(v) => Some(*v),
                None => None,
            }),
    {
        match value {
            Some(DictValue::Array(xs)) => {
                let mut m: KeyMap<String> = KeyMap::new();
                let mut i: usize = 0;
                assert(str_view(m@) =~= Seq::<(Seq<char>, Seq<char>)>::empty());
                assert(xs@.take(0) =~= Seq::<DictValue>::empty());
                while i < xs.len()
                    invariant
                        i <= xs@.len(),
                        str_view(m@) == list_map(xs@.take(i as int)),
                    decreases xs.len() - i,
                {
                    proof {
                        assert(xs@.take(i + 1).drop_last() =~= xs@.take(i as int));
                    }
                    match &xs[i] {
                        DictValue::Str(s) => {
                            let ghost before = m@;
                            let e = String::new();
                            proof {
                                crate::keymap::lemma_str_view_insert(before, s@, e);
                            }
                            m.insert(copy_string(s), e);
                        },
                        _ => {},
                    }
                    i = i + 1;
                }
                assert(xs@.take(xs@.len() as int) =~= xs@);
                Some(m)
            },
            Some(DictValue::Object(es)) => {
                let mut m: KeyMap<String> = KeyMap::new();
                let mut i: usize = 0;
                assert(str_view(m@) =~= Seq::<(Seq<char>, Seq<char>)>::empty());
                assert(es@.take(0) =~= Seq::<(String, DictValue)>::empty());
                while i < es.len()
                    invariant
                        i <= es@.len(),
                        str_view(m@) == object_map(es@.take(i as int)),
                    decreases es.len() - i,
                {
                    proof {
                        assert(es@.take(i + 1).drop_last() =~= es@.take(i as int));
                    }
                    let v = match &es[i].1 {
                        DictValue::Str(s) => copy_string(s),
                        _ => String::new(),
                    };
                    let ghost before = m@;
                    let k = copy_string(&es[i].0);
                    proof {
                        crate::keymap::lemma_str_view_insert(before, k@, v);
                    }
                    m.insert(k, v);
                    i = i + 1;
                }
                assert(es@.take(es@.len() as int) =~= es@);
                Some(m)
            },
            _ => None,
        }
    }

    /// Loads a configuration object (see [`loaded_source`]): the name from
    /// `name`, `alias` or `database`; the target from `target` or the older
    /// `link`; the branch (`master` by default); the type (`local`, else
    /// git); the quest filters from `quests` or the older `filters`; the task
    /// filters; `writeable` (always for the student's own source); the index
    /// (`README.md` by default).
    pub fn load_from_dict(self, data: &DictValue) -> (r: Self)
        ensures
            loaded_source(self, r, *data),
    {
        proof {
            reveal_strlit("name");
            reveal_strlit("alias");
            reveal_strlit("database");
            reveal_strlit("sandbox");
        }
        let mut s = self;
        if let Some(v) = data.str_at("name") {
            s.name = copy_string(v);
        } else if let Some(v) = data.str_at("alias") {
            s.name = copy_string(v);
        } else if let Some(v) = data.str_at("database") {
            s.name = copy_string(v);
        }
        if let Some(v) = data.str_at(Keys::TARGET) {
            s.target = copy_string(v);
        } else if let Some(v) = data.str_at("link") {
            if ends_with(v.as_str(), "README.md") {
                s.target = match parent(v.as_str()) {
                    Some(p) => p,
                    None => String::new(),
                };
            } else {
                s.target = copy_string(v);
            }
        }
        s.branch = match data.str_at(Keys::BRANCH) {
            Some(b) => Some(copy_string(b)),
            None => Some("master".to_string()),
        };
        s.source_type = match data.str_at(Keys::TYPE) {
            Some(t) => if crate::chars::str_equal(t.as_str(), "local") {
                SourceType::LocalFile
            } else {
                SourceType::GitSource
            },
            None => SourceType::GitSource,
        };
        s.quests = match RepSource::parse_str_map(data.get(Keys::QUESTS)) {
            Some(m) => Some(m),
            None => RepSource::parse_str_map(data.get("filters")),
        };
        s.tasks = RepSource::parse_str_map(data.get(Keys::TASKS));
        if let Some(b) = data.bool_at(Keys::WRITEABLE) {
            s.writeable = b;
        }
        if crate::chars::str_equal(s.name.as_str(), STUDENT_SANDBOX_NAME) {
            s.writeable = true;
        }
        s.index = match data.str_at(Keys::INDEX) {
            Some(i) => copy_string(i),
            None => "README.md".to_string(),
        };
        s
    }

    /// The configuration object of the source (see [`saved_source`]).
    pub fn save_to_dict(&self) -> (r: DictValue)
        ensures
            saved_source(*self, r),
    {
        let mut es: Vec<(String, DictValue)> = Vec::new();
        es.push((Keys::NAME.to_string(), str_value(self.name.as_str())));
        es.push((Keys::TARGET.to_string(), str_value(self.target.as_str())));
        es.push((Keys::INDEX.to_string(), str_value(self.index.as_str())));
        let t = self.source_type.to_string();
        es.push((Keys::TYPE.to_string(), str_value(t.as_str())));
        es.push((Keys::WRITEABLE.to_string(), DictValue::Bool(self.writeable)));
        match &self.branch {
            Some(b) => {
                if !crate::chars::str_equal(b.as_str(), "master") {
                    es.push((Keys::BRANCH.to_string(), str_value(b.as_str())));
                }
            },
            None => {},
        }
        es.push((Keys::QUESTS.to_string(), filters_value(&self.quests)));
        es.push((Keys::TASKS.to_string(), filters_value(&self.tasks)));
        DictValue::Object(es)
    }
}

} // verus!
