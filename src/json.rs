//! A JSON value as the library holds it: what a package manifest says, and
//! what an evaluation returns.

use vstd::prelude::*;
use crate::text::same_chars;
use crate::text::chars_of;

verus! {

/// A JSON value. A number is held as JSON writes it; an object keeps its
/// members in order.
pub enum JsonValue {
    Null,
    Bool(bool),
    Number(String),
    Str(String),
    Array(Vec<JsonValue>),
    Object(Vec<(String, JsonValue)>),
}

/// Where `key` first names a member of `fields`.
pub open spec fn first_member(fields: Seq<(String, JsonValue)>, key: Seq<char>, i: int) -> bool {
    &&& 0 <= i < fields.len()
    &&& fields[i].0@ == key
    &&& forall|j: int| 0 <= j < i ==> (#[trigger] fields[j]).0@ != key
}

/// The member `key` of an object, as `Value::get` finds it.
pub open spec fn member(v: JsonValue, key: Seq<char>) -> Option<JsonValue> {
    match v {
        JsonValue::Object(fields) => if exists|i: int| first_member(fields@, key, i) {
            Some(fields@[choose|i: int| first_member(fields@, key, i)].1)
        } else {
            None
        },
        _ => None,
    }
}

impl JsonValue {
    /// The member `key` of this object, as `member` states it.
    pub fn get(&self, key: &str) -> (r: Option<&JsonValue>)
        ensures
            match member(*self, key@) {
                Some(m) => r matches Some(x) && *x == m,
                None => r is None,
            },
    {
        match self {
            JsonValue::Object(fields) => {
                let k = chars_of(key);
                let mut i: usize = 0;
                while i < fields.len()
                    invariant
                        *self == JsonValue::Object(*fields),
                        i <= fields@.len(),
                        k@ == key@,
                        forall|j: int| 0 <= j < i ==> (#[trigger] fields@[j]).0@ != key@,
                    decreases fields@.len() - i,
                {
                    if same_chars(&chars_of(fields[i].0.as_str()), &k) {
                        assert(first_member(fields@, key@, i as int));
                        let ghost c = choose|x: int| first_member(fields@, key@, x);
                        assert(c == i) by {
                            if c < i {
                                assert(fields@[c].0@ != key@);
                            } else if c > i {
                                assert(fields@[i as int].0@ != key@);
                            }
                        }
                        assert(member(*self, key@) == Some(fields@[i as int].1));
                        return Some(&fields[i].1);
                    }
                    i += 1;
                }
                assert(!exists|x: int| first_member(fields@, key@, x)) by {
                    if exists|x: int| first_member(fields@, key@, x) {
                        let x = choose|x: int| first_member(fields@, key@, x);
                        assert(fields@[x].0@ != key@);
                    }
                }
                None
            },
            _ => None,
        }
    }

    /// The text of a string value.
    pub fn as_str(&self) -> (r: Option<&str>)
        ensures
            match *self {
                JsonValue::Str(s) => r matches Some(x) && x@ == s@,
                _ => r is None,
            },
    {
        match self {
            JsonValue::Str(s) => Some(s.as_str()),
            _ => None,
        }
    }
}

} // verus!
