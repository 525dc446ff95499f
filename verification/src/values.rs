//! The declarative value model.
//!
//! The embedding scripting engine hands the library one record per backend.
//! The library consumes those records through this model: nested records,
//! lists, strings, booleans, and opaque hook references. The embedder
//! converts its own value type into this one before calling the library.

use vstd::prelude::*;

use crate::error::Error;
use crate::strutil::str_eq;

verus! {

/// An opaque reference to user-authored hook code, executed by the
/// embedder after a successful state change. `captures_state` reports
/// whether the hook captures external state; such a hook may never run.
#[derive(Clone, Copy, Debug, PartialEq, Eq, Structural)]
pub struct HookRef {
    /// Key into the embedder's table of registered hook bodies.
    pub id: usize,
    /// True when the hook body captures external state.
    pub captures_state: bool,
}

/// One value of the declarative configuration tree.
#[derive(Debug)]
pub enum Value {
    Str(String),
    Bool(bool),
    List(Vec<Value>),
    Record(Record),
    Closure(HookRef),
    Nothing,
}

/// An ordered record of named values. Lookup returns the first entry
/// with the given key.
#[derive(Debug)]
pub struct Record {
    pub entries: Vec<(String, Value)>,
}

/// First value bound to `key` in `entries`, if any.
pub open spec fn spec_record_get(entries: Seq<(String, Value)>, key: Seq<char>) -> Option<Value>
    decreases entries.len(),
{
    if entries.len() == 0 {
        None
    } else if entries[0].0@ == key {
        Some(entries[0].1)
    } else {
        spec_record_get(entries.subrange(1, entries.len() as int), key)
    }
}

/// Interprets an optional hook field of a declarative record.
///
/// An absent field means no hook; a closure that captures external state
/// is treated as absent (such a hook may never run); any other value is a
/// type error.
pub open spec fn spec_hook_field(v: Option<Value>) -> Result<Option<HookRef>, ()> {
    match v {
        None => Ok(None),
        Some(Value::Closure(h)) => Ok(
            if h.captures_state {
                None
            } else {
                Some(h)
            },
        ),
        Some(_) => Err(()),
    }
}

impl Record {
    /// The record's lookup function at the spec level.
    pub open spec fn spec_get(self, key: Seq<char>) -> Option<Value> {
        spec_record_get(self.entries@, key)
    }

    pub fn new() -> (r: Record)
        ensures
            r.entries@.len() == 0,
    {
        Record { entries: Vec::new() }
    }

    /// First value bound to `key`, if any.
    pub fn get(&self, key: &str) -> (r: Option<&Value>)
        ensures
            match r {
                Some(v) => self.spec_get(key@) == Some(*v),
                None => self.spec_get(key@) is None,
            },
    {
        let n = self.entries.len();
        proof {
            assert(self.entries@.subrange(0, n as int) =~= self.entries@);
        }
        let mut i: usize = 0;
        while i < n
            invariant
                n == self.entries@.len(),
                i <= n,
                spec_record_get(self.entries@, key@) == spec_record_get(
                    self.entries@.subrange(i as int, n as int),
                    key@,
                ),
            decreases n - i,
        {
            proof {
                assert(self.entries@.subrange(i as int, n as int)[0] == self.entries@[i as int]);
            }
            if str_eq(self.entries[i].0.as_str(), key) {
                return Some(&self.entries[i].1);
            }
            proof {
                assert(self.entries@.subrange(i as int, n as int).subrange(
                    1,
                    (n - i) as int,
                ) =~= self.entries@.subrange(i as int + 1, n as int));
            }
            i += 1;
        }
        None
    }
}

/// Reads the optional `post_hook` field of `rec`. A capturing hook is
/// dropped; a non-closure value is a type error.
pub fn get_hook_field(rec: &Record) -> (r: Result<Option<HookRef>, Error>)
    ensures
        match r {
            Ok(h) => spec_hook_field(rec.spec_get("post_hook"@)) == Ok::<Option<HookRef>, ()>(h),
            Err(e) => {
                &&& spec_hook_field(rec.spec_get("post_hook"@)) is Err
                &&& e matches Error::TypeMismatch(f) && f@ == "post_hook"@
            },
        },
        r matches Ok(Some(h)) ==> !h.captures_state,
{
    match rec.get("post_hook") {
        None => Ok(None),
        Some(v) => match v {
            Value::Closure(h) => if h.captures_state {
                Ok(None)
            } else {
                Ok(Some(*h))
            },
            _ => Err(Error::TypeMismatch("post_hook".to_owned())),
        },
    }
}

/// Reads an optional string field of `rec`: absent gives `None`, a string
/// gives its value, anything else is a type error naming the field.
pub fn get_string_field(rec: &Record, field: &str) -> (r: Result<Option<String>, Error>)
    ensures
        match r {
            Ok(None) => rec.spec_get(field@) is None,
            Ok(Some(s)) => rec.spec_get(field@) matches Some(Value::Str(p)) && p@ == s@,
            Err(e) => {
                &&& rec.spec_get(field@) matches Some(v) && !(v matches Value::Str(_))
                &&& e matches Error::TypeMismatch(f) && f@ == field@
            },
        },
{
    match rec.get(field) {
        None => Ok(None),
        Some(v) => match v {
            Value::Str(s) => Ok(Some(s.clone())),
            _ => Err(Error::TypeMismatch(field.to_owned())),
        },
    }
}

/// Reads a required list field of `rec`: absent and non-list values are
/// errors naming the field.
pub fn get_list_field<'a>(rec: &'a Record, field: &str) -> (r: Result<&'a Vec<Value>, Error>)
    ensures
        match r {
            Ok(items) => rec.spec_get(field@) == Some(Value::List(*items)),
            Err(e) => match rec.spec_get(field@) {
                None => e matches Error::MissingField(f) && f@ == field@,
                Some(v) => !(v matches Value::List(_)) && (e matches Error::NotAList(f) && f@
                    == field@),
            },
        },
{
    match rec.get(field) {
        None => Err(Error::MissingField(field.to_owned())),
        Some(v) => match v {
            Value::List(items) => {
                proof {
                    assert(rec.spec_get(field@) == Some(*v));
                    assert(*v matches Value::List(l) && l == *items);
                }
                Ok(items)
            },
            _ => Err(Error::NotAList(field.to_owned())),
        },
    }
}

/// Reads an optional boolean field of `rec`, substituting `default` when
/// the field is absent; a non-boolean value is a type error.
pub fn get_bool_field(rec: &Record, field: &str, default: bool) -> (r: Result<bool, Error>)
    ensures
        match r {
            Ok(b) => match rec.spec_get(field@) {
                None => b == default,
                Some(v) => v matches Value::Bool(x) && b == x,
            },
            Err(e) => {
                &&& rec.spec_get(field@) matches Some(v) && !(v matches Value::Bool(_))
                &&& e matches Error::TypeMismatch(f) && f@ == field@
            },
        },
{
    match rec.get(field) {
        None => Ok(default),
        Some(v) => match v {
            Value::Bool(b) => Ok(*b),
            _ => Err(Error::TypeMismatch(field.to_owned())),
        },
    }
}

} // verus!
