//! The JSON documents that the WakaTime CLI, the Hack Club and the Slack
//! services send back, held as plain values.
//!
//! `Json` has the shape of a `serde_json::Value`; an object holds its
//! entries as a list, in the order in which they were handed over (where
//! the value comes from `serde_json`, that is the order of its map: by
//! key).
use vstd::prelude::*;
use crate::text::{text_eq};

verus! {

/// A JSON number, with the readings of it that the library uses.
#[derive(Debug, Clone, PartialEq)]
pub struct JsonNumber {
    /// The number as it is written.
    pub literal: String,
    /// The number as an unsigned 64-bit integer, when it is one.
    pub as_u64: Option<u64>,
    /// The number as a 64-bit float converted to `u32` with `as`: the
    /// fraction dropped, values below zero (and NaN) giving 0, values
    /// above `u32::MAX` giving `u32::MAX`.
    pub as_u32_lossy: u32,
}

/// A JSON value.
#[derive(Debug, PartialEq)]
pub enum Json {
    Null,
    Bool(bool),
    Number(JsonNumber),
    Text(String),
    Array(Vec<Json>),
    Object(Vec<(String, Json)>),
}

/// `i` is the first entry of `entries` whose key is `key`.
pub open spec fn is_first_key(entries: Seq<(String, Json)>, key: Seq<char>, i: int) -> bool {
    &&& 0 <= i < entries.len()
    &&& entries[i].0@ == key
    &&& forall|k: int| 0 <= k < i ==> entries[k].0@ != key
}

/// Some entry of `entries` has the key `key`.
pub open spec fn has_key(entries: Seq<(String, Json)>, key: Seq<char>) -> bool {
    exists|i: int| 0 <= i < entries.len() && entries[i].0@ == key
}

/// The value of the first entry of `entries` with the key `key`.
pub open spec fn entry_value(entries: Seq<(String, Json)>, key: Seq<char>) -> Option<Json> {
    if has_key(entries, key) {
        Some(entries[choose|i: int| is_first_key(entries, key, i)].1)
    } else {
        None
    }
}

/// There is only one first entry with a key.
pub proof fn lemma_first_key_unique(entries: Seq<(String, Json)>, key: Seq<char>, i: int)
    requires
        is_first_key(entries, key, i),
    ensures
        entry_value(entries, key) == Some(entries[i].1),
{
    assert(has_key(entries, key));
    let j = choose|j: int| is_first_key(entries, key, j);
    assert(is_first_key(entries, key, j));
    if j < i {
        assert(entries[j].0@ != key);
    }
    if i < j {
        assert(entries[i].0@ != key);
    }
}

/// Where some entry has the key, a first one does.
pub proof fn lemma_first_key_exists(entries: Seq<(String, Json)>, key: Seq<char>, j: int)
    requires
        0 <= j < entries.len(),
        entries[j].0@ == key,
    ensures
        exists|f: int| is_first_key(entries, key, f),
    decreases j,
{
    if forall|k: int| 0 <= k < j ==> entries[k].0@ != key {
        assert(is_first_key(entries, key, j));
    } else {
        let k = choose|k: int| 0 <= k < j && entries[k].0@ == key;
        lemma_first_key_exists(entries, key, k);
    }
}

/// Entries whose keys are those of `old` (and, past its end, `key`), and
/// whose values differ from those of `old` only where the key is `key`,
/// give every other key the same value.
pub proof fn lemma_entry_value_other(
    old: Seq<(String, Json)>,
    new: Seq<(String, Json)>,
    key: Seq<char>,
    other: Seq<char>,
)
    requires
        other != key,
        old.len() <= new.len(),
        forall|k: int| 0 <= k < old.len() ==> new[k].0@ == old[k].0@,
        forall|k: int| 0 <= k < old.len() && old[k].0@ != key ==> new[k].1 == old[k].1,
        forall|k: int| old.len() <= k < new.len() ==> new[k].0@ == key,
    ensures
        entry_value(new, other) == entry_value(old, other),
{
    if has_key(old, other) {
        let j = choose|i: int| 0 <= i < old.len() && old[i].0@ == other;
        lemma_first_key_exists(old, other, j);
        let f = choose|f: int| is_first_key(old, other, f);
        lemma_first_key_unique(old, other, f);
        assert(is_first_key(new, other, f));
        lemma_first_key_unique(new, other, f);
    } else {
        assert(!has_key(new, other)) by {
            if has_key(new, other) {
                let i = choose|i: int| 0 <= i < new.len() && new[i].0@ == other;
                if i < old.len() {
                    assert(old[i].0@ == other);
                }
            }
        }
    }
}

impl Json {
    /// The member `key` of an object, as `Value::get` gives it; nothing
    /// for a value that is not an object.
    pub open spec fn field(self, key: Seq<char>) -> Option<Json> {
        match self {
            Json::Object(entries) => entry_value(entries@, key),
            _ => None,
        }
    }

    /// The text of a string value (`Value::as_str`).
    pub open spec fn text_value(self) -> Option<Seq<char>> {
        match self {
            Json::Text(s) => Some(s@),
            _ => None,
        }
    }

    /// The value of a boolean (`Value::as_bool`).
    pub open spec fn bool_value(self) -> Option<bool> {
        match self {
            Json::Bool(b) => Some(b),
            _ => None,
        }
    }

    /// The value of a number that is an unsigned 64-bit integer
    /// (`Value::as_u64`).
    pub open spec fn u64_value(self) -> Option<u64> {
        match self {
            Json::Number(n) => n.as_u64,
            _ => None,
        }
    }

    /// The elements of an array (`Value::as_array`).
    pub open spec fn array_items(self) -> Option<Seq<Json>> {
        match self {
            Json::Array(items) => Some(items@),
            _ => None,
        }
    }

    /// The member `key` of an object.
    pub fn get(&self, key: &str) -> (r: Option<&Json>)
        ensures
            match r {
                Some(v) => self.field(key@) == Some(*v),
                None => self.field(key@) is None,
            },
    {
        match self {
            Json::Object(entries) => {
                let mut i: usize = 0;
                while i < entries.len()
                    invariant
                        i <= entries@.len(),
                        self.field(key@) == entry_value(entries@, key@),
                        forall|k: int| 0 <= k < i ==> entries@[k].0@ != key@,
                    decreases entries@.len() - i,
                {
                    if text_eq(entries[i].0.as_str(), key) {
                        proof {
                            lemma_first_key_unique(entries@, key@, i as int);
                        }
                        return Some(&entries[i].1);
                    }
                    i = i + 1;
                }
                assert(!has_key(entries@, key@));
                None
            },
            _ => None,
        }
    }

    /// The text of a string value.
    pub fn as_text(&self) -> (r: Option<&str>)
        ensures
            match r {
                Some(s) => self.text_value() == Some(s@),
                None => self.text_value() is None,
            },
    {
        match self {
            Json::Text(s) => Some(s.as_str()),
            _ => None,
        }
    }

    /// The value of a boolean.
    pub fn as_bool(&self) -> (r: Option<bool>)
        ensures
            r == self.bool_value(),
    {
        match self {
            Json::Bool(b) => Some(*b),
            _ => None,
        }
    }

    /// The value of a number that is an unsigned 64-bit integer.
    pub fn as_u64(&self) -> (r: Option<u64>)
        ensures
            r == self.u64_value(),
    {
        match self {
            Json::Number(n) => n.as_u64,
            _ => None,
        }
    }

    /// The elements of an array.
    pub fn as_array(&self) -> (r: Option<&Vec<Json>>)
        ensures
            match r {
                Some(items) => self.array_items() == Some(items@),
                None => self.array_items() is None,
            },
    {
        match self {
            Json::Array(items) => Some(items),
            _ => None,
        }
    }

    /// The text of the member `key`, when that member is a string.
    pub fn field_text(&self, key: &str) -> (r: Option<&str>)
        ensures
            match r {
                Some(s) => self.field(key@) matches Some(v) && v.text_value() == Some(s@),
                None => !(self.field(key@) matches Some(v) && v.text_value() is Some),
            },
    {
        match self.get(key) {
            Some(v) => v.as_text(),
            None => None,
        }
    }
}

} // verus!
