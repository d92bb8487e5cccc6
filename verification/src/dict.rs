//! Plain data read from and written to configuration files: null, booleans,
//! numbers (kept as their text), strings, lists and keyed objects.

use crate::chars::str_equal;
use vstd::prelude::*;

verus! {

/// A configuration value.
#[derive(Debug)]
pub enum DictValue {
    Null,
    Bool(bool),
    Number(String),
    Str(String),
    Array(Vec<DictValue>),
    Object(Vec<(String, DictValue)>),
}

/// The position of the first entry with key `key`, from `i` on.
pub open spec fn entry_index(es: Seq<(String, DictValue)>, key: Seq<char>, i: int) -> Option<int>
    decreases es.len() - i,
{
    if i < 0 || i >= es.len() {
        None
    } else if es[i].0@ == key {
        Some(i)
    } else {
        entry_index(es, key, i + 1)
    }
}

/// The value under `key` (`value[key]`): the first entry of an object with
/// that key; `None` for a missing key or a value that is no object.
pub open spec fn dict_get(d: DictValue, key: Seq<char>) -> Option<DictValue> {
    match d {
        DictValue::Object(es) => match entry_index(es@, key, 0) {
            Some(i) => Some(es@[i].1),
            None => None,
        },
        _ => None,
    }
}

/// The string that a value holds, if it is a string.
pub open spec fn as_str_spec(d: Option<DictValue>) -> Option<Seq<char>> {
    match d {
        Some(DictValue::Str(s)) => Some(s@),
        _ => None,
    }
}

/// The boolean that a value holds, if it is one.
pub open spec fn as_bool_spec(d: Option<DictValue>) -> Option<bool> {
    match d {
        Some(DictValue::Bool(b)) => Some(b),
        _ => None,
    }
}

/// The string under `key`, if there is one.
pub open spec fn str_at(d: DictValue, key: Seq<char>) -> Option<Seq<char>> {
    as_str_spec(dict_get(d, key))
}

proof fn lemma_entry_index(es: Seq<(String, DictValue)>, key: Seq<char>, i: int)
    requires
        0 <= i,
    ensures
        entry_index(es, key, i) matches Some(j) ==> i <= j < es.len() && es[j].0@ == key,
    decreases es.len() - i,
{
    if i < es.len() && es[i].0@ != key {
        lemma_entry_index(es, key, i + 1);
    }
}


/// The first entry with a key is found from any earlier position.
pub proof fn lemma_entry_index_at(es: Seq<(String, DictValue)>, key: Seq<char>, i: int, j: int)
    requires
        0 <= i <= j < es.len(),
        es[j].0@ == key,
        forall|q: int| i <= q < j ==> (#[trigger] es[q]).0@ != key,
    ensures
        entry_index(es, key, i) == Some(j),
    decreases j - i,
{
    if i < j {
        lemma_entry_index_at(es, key, i + 1, j);
    }
}

/// A key that no entry from a position on has is not found there.
pub proof fn lemma_entry_index_absent(es: Seq<(String, DictValue)>, key: Seq<char>, i: int)
    requires
        0 <= i <= es.len(),
        forall|q: int| i <= q < es.len() ==> (#[trigger] es[q]).0@ != key,
    ensures
        entry_index(es, key, i) is None,
    decreases es.len() - i,
{
    if i < es.len() {
        lemma_entry_index_absent(es, key, i + 1);
    }
}

impl DictValue {
    /// The value under `key` when this is an object that has it.
    pub fn get(&self, key: &str) -> (r: Option<&DictValue>)
        ensures
            match r {
                Some(v) => dict_get(*self, key@) == Some(*v),
                None => dict_get(*self, key@) is None,
            },
    {
        match self {
            DictValue::Object(es) => {
                let mut i: usize = 0;
                while i < es.len()
                    invariant
                        i <= es@.len(),
                        *self == DictValue::Object(*es),
                        entry_index(es@, key@, i as int) == entry_index(es@, key@, 0),
                    decreases es.len() - i,
                {
                    if str_equal(es[i].0.as_str(), key) {
                        assert(entry_index(es@, key@, i as int) == Some(i as int));
                        return Some(&es[i].1);
                    }
                    i = i + 1;
                }
                None
            },
            _ => None,
        }
    }

    /// The string under `key`, if there is one.
    pub fn str_at(&self, key: &str) -> (r: Option<&String>)
        ensures
            match r {
                Some(s) => str_at(*self, key@) == Some(s@),
                None => str_at(*self, key@) is None,
            },
    {
        match self.get(key) {
            Some(DictValue::Str(s)) => Some(s),
            _ => None,
        }
    }

    /// The boolean under `key`, if there is one.
    pub fn bool_at(&self, key: &str) -> (r: Option<bool>)
        ensures
            r == as_bool_spec(dict_get(*self, key@)),
    {
        match self.get(key) {
            Some(DictValue::Bool(b)) => Some(*b),
            _ => None,
        }
    }
}

} // verus!
