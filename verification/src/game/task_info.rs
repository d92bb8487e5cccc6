//! A student's self-assessment of a task.

use crate::chars::copy_string;
use crate::keymap::{insert_entry, lemma_str_view_insert, lemma_str_view_lookup, lookup, str_view, KeyMap};
use crate::strs::{i32_to_string, int_decimal, parse_i32, parse_i32_spec};
use vstd::prelude::*;

verus! {

/// The self-assessment of a task.
#[derive(Debug)]
pub struct TaskSelfInfo {
    pub rate: i32,
    pub study: i32,
    pub feedback: bool,
    pub friend: String,
    pub guided: bool,
    pub ia_concept: bool,
    pub ia_problem: bool,
    pub ia_code: bool,
    pub ia_debug: bool,
    pub ia_refactor: bool,
}

/// The rate after reading `value`: a number in 0..=100 replaces it, another
/// number leaves it, text that is no number resets it to 0.
pub open spec fn rate_after(rate: i32, value: Seq<char>) -> i32 {
    match parse_i32_spec(value) {
        Some(v) => if 0 <= v && v <= 100 {
            v
        } else {
            rate
        },
        None => 0,
    }
}

/// The study minutes after reading `value`: a number of at least 0 replaces
/// them, another number leaves them, text that is no number resets them.
pub open spec fn study_after(study: i32, value: Seq<char>) -> i32 {
    match parse_i32_spec(value) {
        Some(v) => if v >= 0 {
            v
        } else {
            study
        },
        None => 0,
    }
}

/// Whether a key holds the flag value `1`.
pub open spec fn flag_of(kv: Seq<(Seq<char>, Seq<char>)>, key: Seq<char>) -> bool {
    lookup(kv, key) == Some(seq!['1'])
}

/// The entries for one optional key.
pub open spec fn kv_if(
    kv: Seq<(Seq<char>, Seq<char>)>,
    cond: bool,
    key: Seq<char>,
    value: Seq<char>,
) -> Seq<(Seq<char>, Seq<char>)> {
    if cond {
        insert_entry(kv, key, value)
    } else {
        kv
    }
}

/// The key/value form of an assessment: only the set keys, in the order
/// feedback, rate, study, friend, guided, concept, problem, code, debug,
/// refactor.
pub open spec fn kv_spec(i: &TaskSelfInfo) -> Seq<(Seq<char>, Seq<char>)> {
    let e = Seq::<(Seq<char>, Seq<char>)>::empty();
    let a = kv_if(e, i.feedback, "self"@, seq!['1']);
    let b = kv_if(a, i.rate != 0, "rate"@, int_decimal(i.rate as int));
    let c = kv_if(b, i.study != 0, "study"@, int_decimal(i.study as int));
    let d = kv_if(c, i.friend@.len() != 0, "friend"@, i.friend@);
    let f = kv_if(d, i.guided, "guided"@, seq!['1']);
    let g = kv_if(f, i.ia_concept, "concept"@, seq!['1']);
    let h = kv_if(g, i.ia_problem, "problem"@, seq!['1']);
    let j = kv_if(h, i.ia_code, "code"@, seq!['1']);
    let k = kv_if(j, i.ia_debug, "debug"@, seq!['1']);
    kv_if(k, i.ia_refactor, "refactor"@, seq!['1'])
}

/// Whether two assessments agree on every field.
pub open spec fn same_info(a: &TaskSelfInfo, b: &TaskSelfInfo) -> bool {
    &&& a.rate == b.rate
    &&& a.study == b.study
    &&& a.feedback == b.feedback
    &&& a.friend@ == b.friend@
    &&& a.guided == b.guided
    &&& a.ia_concept == b.ia_concept
    &&& a.ia_problem == b.ia_problem
    &&& a.ia_code == b.ia_code
    &&& a.ia_debug == b.ia_debug
    &&& a.ia_refactor == b.ia_refactor
}

/// The assessment after loading key/value pairs into `i`.
pub open spec fn loaded(i: &TaskSelfInfo, r: &TaskSelfInfo, kv: Seq<(Seq<char>, Seq<char>)>) -> bool {
    &&& r.rate == match lookup(kv, "rate"@) {
        Some(v) => rate_after(i.rate, v),
        None => i.rate,
    }
    &&& r.study == match lookup(kv, "study"@) {
        Some(v) => study_after(i.study, v),
        None => i.study,
    }
    &&& r.friend@ == match lookup(kv, "friend"@) {
        Some(v) => v,
        None => Seq::empty(),
    }
    &&& r.feedback == flag_of(kv, "self"@)
    &&& r.guided == flag_of(kv, "guided"@)
    &&& r.ia_concept == flag_of(kv, "concept"@)
    &&& r.ia_problem == flag_of(kv, "problem"@)
    &&& r.ia_code == flag_of(kv, "code"@)
    &&& r.ia_debug == flag_of(kv, "debug"@)
    &&& r.ia_refactor == flag_of(kv, "refactor"@)
}


proof fn lemma_kv_if(kv: Seq<(Seq<char>, Seq<char>)>, cond: bool, k: Seq<char>, v: Seq<char>, q: Seq<char>)
    requires
        crate::keymap::keys_distinct(kv),
    ensures
        crate::keymap::keys_distinct(kv_if(kv, cond, k, v)),
        lookup(kv_if(kv, cond, k, v), q) == if cond && q == k {
            Some(v)
        } else {
            lookup(kv, q)
        },
{
    if cond {
        crate::keymap::lemma_lookup_insert(kv, k, v, q);
    }
}

/// What the key/value form of an assessment gives for `q`, key by key.
proof fn lemma_kv_lookup(i: &TaskSelfInfo, q: Seq<char>)
    ensures
        lookup(kv_spec(i), q) == if q == "refactor"@ && i.ia_refactor {
            Some(seq!['1'])
        } else if q == "debug"@ && i.ia_debug {
            Some(seq!['1'])
        } else if q == "code"@ && i.ia_code {
            Some(seq!['1'])
        } else if q == "problem"@ && i.ia_problem {
            Some(seq!['1'])
        } else if q == "concept"@ && i.ia_concept {
            Some(seq!['1'])
        } else if q == "guided"@ && i.guided {
            Some(seq!['1'])
        } else if q == "friend"@ && i.friend@.len() != 0 {
            Some(i.friend@)
        } else if q == "study"@ && i.study != 0 {
            Some(int_decimal(i.study as int))
        } else if q == "rate"@ && i.rate != 0 {
            Some(int_decimal(i.rate as int))
        } else if q == "self"@ && i.feedback {
            Some(seq!['1'])
        } else {
            None
        },
{
    let e = Seq::<(Seq<char>, Seq<char>)>::empty();
    let a = kv_if(e, i.feedback, "self"@, seq!['1']);
    let b = kv_if(a, i.rate != 0, "rate"@, int_decimal(i.rate as int));
    let c = kv_if(b, i.study != 0, "study"@, int_decimal(i.study as int));
    let d = kv_if(c, i.friend@.len() != 0, "friend"@, i.friend@);
    let f = kv_if(d, i.guided, "guided"@, seq!['1']);
    let g = kv_if(f, i.ia_concept, "concept"@, seq!['1']);
    let h = kv_if(g, i.ia_problem, "problem"@, seq!['1']);
    let j = kv_if(h, i.ia_code, "code"@, seq!['1']);
    let k = kv_if(j, i.ia_debug, "debug"@, seq!['1']);
    assert(crate::keymap::keys_distinct(e));
    assert(lookup(e, q) is None);
    lemma_kv_if(e, i.feedback, "self"@, seq!['1'], q);
    lemma_kv_if(a, i.rate != 0, "rate"@, int_decimal(i.rate as int), q);
    lemma_kv_if(b, i.study != 0, "study"@, int_decimal(i.study as int), q);
    lemma_kv_if(c, i.friend@.len() != 0, "friend"@, i.friend@, q);
    lemma_kv_if(d, i.guided, "guided"@, seq!['1'], q);
    lemma_kv_if(f, i.ia_concept, "concept"@, seq!['1'], q);
    lemma_kv_if(g, i.ia_problem, "problem"@, seq!['1'], q);
    lemma_kv_if(h, i.ia_code, "code"@, seq!['1'], q);
    lemma_kv_if(j, i.ia_debug, "debug"@, seq!['1'], q);
    lemma_kv_if(k, i.ia_refactor, "refactor"@, seq!['1'], q);
}

/// Loading an assessment's own key/value form into it changes nothing.
pub proof fn lemma_reload_same(i: &TaskSelfInfo, r: &TaskSelfInfo)
    requires
        loaded(i, r, kv_spec(i)),
    ensures
        same_info(r, i),
{
    reveal_strlit("self");
    reveal_strlit("rate");
    reveal_strlit("study");
    reveal_strlit("friend");
    reveal_strlit("guided");
    reveal_strlit("concept");
    reveal_strlit("problem");
    reveal_strlit("code");
    reveal_strlit("debug");
    reveal_strlit("refactor");
    assert("self"@[0] == 's' && "rate"@[0] == 'r' && "study"@[0] == 's' && "friend"@[0] == 'f');
    assert("guided"@[0] == 'g' && "concept"@[0] == 'c' && "problem"@[0] == 'p' && "code"@[0] == 'c');
    assert("debug"@[0] == 'd' && "refactor"@[0] == 'r');
    assert("self"@.len() == 4 && "rate"@.len() == 4 && "code"@.len() == 4);
    assert("study"@.len() == 5 && "debug"@.len() == 5);
    assert("friend"@.len() == 6 && "guided"@.len() == 6);
    assert("concept"@.len() == 7 && "problem"@.len() == 7 && "refactor"@.len() == 8);
    lemma_kv_lookup(i, "self"@);
    lemma_kv_lookup(i, "rate"@);
    lemma_kv_lookup(i, "study"@);
    lemma_kv_lookup(i, "friend"@);
    lemma_kv_lookup(i, "guided"@);
    lemma_kv_lookup(i, "concept"@);
    lemma_kv_lookup(i, "problem"@);
    lemma_kv_lookup(i, "code"@);
    lemma_kv_lookup(i, "debug"@);
    lemma_kv_lookup(i, "refactor"@);
    crate::strs::lemma_parse_int_decimal(i.rate);
    crate::strs::lemma_parse_int_decimal(i.study);
    if i.friend@.len() == 0 {
        assert(i.friend@ =~= Seq::<char>::empty());
    }
}

/// Loading an assessment's key/value form into a new assessment (rate and
/// study 0) gives the assessment back, when its rate is within 0..=100 and
/// its study is not negative (other values are not read back).
pub proof fn lemma_reload_fresh(i: &TaskSelfInfo, f: &TaskSelfInfo, r: &TaskSelfInfo)
    requires
        f.rate == 0,
        f.study == 0,
        0 <= i.rate <= 100,
        i.study >= 0,
        loaded(f, r, kv_spec(i)),
    ensures
        same_info(r, i),
{
    reveal_strlit("self");
    reveal_strlit("rate");
    reveal_strlit("study");
    reveal_strlit("friend");
    reveal_strlit("guided");
    reveal_strlit("concept");
    reveal_strlit("problem");
    reveal_strlit("code");
    reveal_strlit("debug");
    reveal_strlit("refactor");
    assert("self"@[0] == 's' && "rate"@[0] == 'r' && "study"@[0] == 's' && "friend"@[0] == 'f');
    assert("guided"@[0] == 'g' && "concept"@[0] == 'c' && "problem"@[0] == 'p' && "code"@[0] == 'c');
    assert("debug"@[0] == 'd' && "refactor"@[0] == 'r');
    assert("self"@.len() == 4 && "rate"@.len() == 4 && "code"@.len() == 4);
    assert("study"@.len() == 5 && "debug"@.len() == 5);
    assert("friend"@.len() == 6 && "guided"@.len() == 6);
    assert("concept"@.len() == 7 && "problem"@.len() == 7 && "refactor"@.len() == 8);
    lemma_kv_lookup(i, "self"@);
    lemma_kv_lookup(i, "rate"@);
    lemma_kv_lookup(i, "study"@);
    lemma_kv_lookup(i, "friend"@);
    lemma_kv_lookup(i, "guided"@);
    lemma_kv_lookup(i, "concept"@);
    lemma_kv_lookup(i, "problem"@);
    lemma_kv_lookup(i, "code"@);
    lemma_kv_lookup(i, "debug"@);
    lemma_kv_lookup(i, "refactor"@);
    crate::strs::lemma_parse_int_decimal(i.rate);
    crate::strs::lemma_parse_int_decimal(i.study);
    if i.friend@.len() == 0 {
        assert(i.friend@ =~= Seq::<char>::empty());
    }
}

impl Clone for TaskSelfInfo {
    fn clone(&self) -> (r: Self)
        ensures
            same_info(&r, self),
    {
        TaskSelfInfo {
            rate: self.rate,
            study: self.study,
            feedback: self.feedback,
            friend: copy_string(&self.friend),
            guided: self.guided,
            ia_concept: self.ia_concept,
            ia_problem: self.ia_problem,
            ia_code: self.ia_code,
            ia_debug: self.ia_debug,
            ia_refactor: self.ia_refactor,
        }
    }
}

/// Whether `v` is the string `1`.
fn is_one(v: Option<&String>) -> (r: bool)
    ensures
        r == (match v {
            Some(s) => s@ == seq!['1'],
            None => false,
        }),
{
    match v {
        Some(s) => {
            let n = s.as_str().unicode_len();
            if n == 1 && s.as_str().get_char(0) == '1' {
                assert(s@ =~= seq!['1']);
                true
            } else {
                false
            }
        },
        None => false,
    }
}

impl TaskSelfInfo {
    /// Nothing assessed.
    pub fn new() -> (r: Self)
        ensures
            r.rate == 0,
            r.study == 0,
            !r.feedback,
            r.friend@ == Seq::<char>::empty(),
            !r.guided && !r.ia_concept && !r.ia_problem && !r.ia_code && !r.ia_debug && !r.ia_refactor,
    {
        TaskSelfInfo {
            rate: 0,
            study: 0,
            feedback: false,
            friend: String::new(),
            guided: false,
            ia_concept: false,
            ia_problem: false,
            ia_code: false,
            ia_debug: false,
            ia_refactor: false,
        }
    }

    /// Copies the quality fields of `other`: feedback, friend and the kinds of
    /// help (the concept flag is taken from `other`'s problem flag, and the
    /// problem flag is kept).
    pub fn copy_quality_from(&mut self, other: TaskSelfInfo)
        ensures
            final(self).rate == old(self).rate,
            final(self).study == old(self).study,
            final(self).feedback == other.feedback,
            final(self).friend@ == other.friend@,
            final(self).guided == other.guided,
            final(self).ia_concept == other.ia_problem,
            final(self).ia_problem == old(self).ia_problem,
            final(self).ia_code == other.ia_code,
            final(self).ia_debug == other.ia_debug,
            final(self).ia_refactor == other.ia_refactor,
    {
        self.feedback = other.feedback;
        self.friend = other.friend;
        self.guided = other.guided;
        self.ia_concept = other.ia_problem;
        self.ia_code = other.ia_code;
        self.ia_debug = other.ia_debug;
        self.ia_refactor = other.ia_refactor;
    }

    /// Reads the study minutes from text.
    pub fn set_study(&mut self, value: &String) -> (r: &mut Self)
        ensures
            r.study == study_after(old(self).study, value@),
            r.rate == old(self).rate,
            r.feedback == old(self).feedback,
            r.friend@ == old(self).friend@,
            r.guided == old(self).guided,
            r.ia_concept == old(self).ia_concept,
            r.ia_problem == old(self).ia_problem,
            r.ia_code == old(self).ia_code,
            r.ia_debug == old(self).ia_debug,
            r.ia_refactor == old(self).ia_refactor,
            *final(self) == *final(r),
    {
        match parse_i32(value.as_str()) {
            Some(minutes) => {
                if minutes >= 0 {
                    self.study = minutes;
                }
            },
            None => {
                self.study = 0;
            },
        }
        self
    }

    /// Reads the rate from text.
    pub fn set_rate(&mut self, value: &String) -> (r: &mut Self)
        ensures
            r.rate == rate_after(old(self).rate, value@),
            r.study == old(self).study,
            r.feedback == old(self).feedback,
            r.friend@ == old(self).friend@,
            r.guided == old(self).guided,
            r.ia_concept == old(self).ia_concept,
            r.ia_problem == old(self).ia_problem,
            r.ia_code == old(self).ia_code,
            r.ia_debug == old(self).ia_debug,
            r.ia_refactor == old(self).ia_refactor,
            *final(self) == *final(r),
    {
        match parse_i32(value.as_str()) {
            Some(rate) => {
                if 0 <= rate && rate <= 100 {
                    self.rate = rate;
                }
            },
            None => {
                self.rate = 0;
            },
        }
        self
    }

    /// Loads the assessment from key/value pairs: `rate` and `study` are read
    /// when present; `friend` and the flags (`self`, `guided`, `concept`,
    /// `problem`, `code`, `debug`, `refactor`, set by the value `1`) are
    /// always replaced.
    pub fn load_from_kv(&mut self, kv: &KeyMap<String>) -> (r: &mut Self)
        ensures
            loaded(old(self), r, str_view(kv@)),
            *final(self) == *final(r),
    {
        proof {
            lemma_str_view_lookup(kv@, "rate"@);
            lemma_str_view_lookup(kv@, "study"@);
            lemma_str_view_lookup(kv@, "friend"@);
            lemma_str_view_lookup(kv@, "self"@);
            lemma_str_view_lookup(kv@, "guided"@);
            lemma_str_view_lookup(kv@, "concept"@);
            lemma_str_view_lookup(kv@, "problem"@);
            lemma_str_view_lookup(kv@, "code"@);
            lemma_str_view_lookup(kv@, "debug"@);
            lemma_str_view_lookup(kv@, "refactor"@);
        }
        if kv.contains_key("rate") {
            let v = kv.get("rate").unwrap();
            self.set_rate(v);
        }
        if kv.contains_key("study") {
            let v = kv.get("study").unwrap();
            self.set_study(v);
        }
        self.friend = match kv.get("friend") {
            Some(v) => copy_string(v),
            None => String::new(),
        };
        self.feedback = is_one(kv.get("self"));
        self.guided = is_one(kv.get("guided"));
        self.ia_concept = is_one(kv.get("concept"));
        self.ia_problem = is_one(kv.get("problem"));
        self.ia_code = is_one(kv.get("code"));
        self.ia_debug = is_one(kv.get("debug"));
        self.ia_refactor = is_one(kv.get("refactor"));
        self
    }

    /// Reloads the assessment from its own key/value form, which changes
    /// nothing.
    pub fn clone(&mut self) -> (r: &mut TaskSelfInfo)
        ensures
            same_info(r, old(self)),
            *final(self) == *final(r),
    {
        let kv = self.get_kv();
        let ghost before = *self;
        let r = self.load_from_kv(&kv);
        proof {
            lemma_reload_same(&before, r);
        }
        r
    }

    /// The key/value form of the assessment: only the set fields.
    pub fn get_kv(&self) -> (r: KeyMap<String>)
        ensures
            str_view(r@) == kv_spec(self),
    {
        proof {
            reveal_strlit("1");
            assert("1"@ =~= seq!['1']);
        }
        let mut kv: KeyMap<String> = KeyMap::new();
        assert(str_view(kv@) =~= Seq::<(Seq<char>, Seq<char>)>::empty());
        if self.feedback {
            let ghost before = kv@;
            let v = "1".to_string();
            let ghost vv = v;
            kv.insert("self".to_string(), v);
            proof {
                lemma_str_view_insert(before, "self"@, vv);
            }
        }
        if self.rate != 0 {
            let ghost before = kv@;
            let v = i32_to_string(self.rate);
            let ghost vv = v;
            kv.insert("rate".to_string(), v);
            proof {
                lemma_str_view_insert(before, "rate"@, vv);
            }
        }
        if self.study != 0 {
            let ghost before = kv@;
            let v = i32_to_string(self.study);
            let ghost vv = v;
            kv.insert("study".to_string(), v);
            proof {
                lemma_str_view_insert(before, "study"@, vv);
            }
        }
        if self.friend.as_str().unicode_len() != 0 {
            let ghost before = kv@;
            let v = copy_string(&self.friend);
            let ghost vv = v;
            kv.insert("friend".to_string(), v);
            proof {
                lemma_str_view_insert(before, "friend"@, vv);
            }
        }
        if self.guided {
            let ghost before = kv@;
            let v = "1".to_string();
            let ghost vv = v;
            kv.insert("guided".to_string(), v);
            proof {
                lemma_str_view_insert(before, "guided"@, vv);
            }
        }
        if self.ia_concept {
            let ghost before = kv@;
            let v = "1".to_string();
            let ghost vv = v;
            kv.insert("concept".to_string(), v);
            proof {
                lemma_str_view_insert(before, "concept"@, vv);
            }
        }
        if self.ia_problem {
            let ghost before = kv@;
            let v = "1".to_string();
            let ghost vv = v;
            kv.insert("problem".to_string(), v);
            proof {
                lemma_str_view_insert(before, "problem"@, vv);
            }
        }
        if self.ia_code {
            let ghost before = kv@;
            let v = "1".to_string();
            let ghost vv = v;
            kv.insert("code".to_string(), v);
            proof {
                lemma_str_view_insert(before, "code"@, vv);
            }
        }
        if self.ia_debug {
            let ghost before = kv@;
            let v = "1".to_string();
            let ghost vv = v;
            kv.insert("debug".to_string(), v);
            proof {
                lemma_str_view_insert(before, "debug"@, vv);
            }
        }
        if self.ia_refactor {
            let ghost before = kv@;
            let v = "1".to_string();
            let ghost vv = v;
            kv.insert("refactor".to_string(), v);
            proof {
                lemma_str_view_insert(before, "refactor"@, vv);
            }
        }
        proof {
            reveal_strlit("1");
        }
        kv
    }
}

} // verus!
