//! The library's model of a JSON document: what the report readers look
//! at, as plain values. A number is kept as the `i64` it denotes, or as
//! `None` where it is no such integer (a fraction, or out of range).
use vstd::prelude::*;

use crate::text::str_eq;

verus! {

#[derive(Debug)]
pub enum Json {
    Null,
    Bool(bool),
    Number(Option<i64>),
    Str(String),
    Array(Vec<Json>),
    /// Members in document order.
    Object(Vec<(String, Json)>),
}

/// The value of the last member named `key`, as a map filled in order
/// would hold it.
pub open spec fn member(es: Seq<(String, Json)>, key: Seq<char>) -> Option<Json>
    decreases es.len(),
{
    if es.len() == 0 {
        None
    } else if es.last().0@ == key {
        Some(es.last().1)
    } else {
        member(es.drop_last(), key)
    }
}

/// `value.get(key)`: the member of an object, nothing for other values.
pub open spec fn field(j: Json, key: Seq<char>) -> Option<Json> {
    match j {
        Json::Object(es) => member(es@, key),
        _ => None,
    }
}

/// `as_i64`.
pub open spec fn int_of(j: Option<Json>) -> Option<i64> {
    match j {
        Some(Json::Number(Some(n))) => Some(n),
        _ => None,
    }
}

/// `as_str`, or the empty text.
pub open spec fn text_or_empty(j: Option<Json>) -> Seq<char> {
    match j {
        Some(Json::Str(s)) => s@,
        _ => seq![],
    }
}

/// `as_array`, or no items.
pub open spec fn items_of(j: Option<Json>) -> Seq<Json> {
    match j {
        Some(Json::Array(v)) => v@,
        _ => seq![],
    }
}

/// `as_object`, or no members.
pub open spec fn members_of(j: Option<Json>) -> Seq<(String, Json)> {
    match j {
        Some(Json::Object(es)) => es@,
        _ => seq![],
    }
}

impl Json {
    /// `Value::get` with a string key.
    pub fn get(&self, key: &str) -> (r: Option<&Json>)
        ensures
            match r {
                Some(v) => field(*self, key@) == Some(*v),
                None => field(*self, key@) is None,
            },
    {
        match self {
            Json::Object(es) => {
                let mut i = es.len();
                assert(es@.take(es@.len() as int) =~= es@);
                while i > 0
                    invariant
                        i <= es@.len(),
                        field(*self, key@) == member(es@, key@),
                        member(es@, key@) == member(es@.take(i as int), key@),
                    decreases i,
                {
                    proof {
                        let t = es@.take(i as int);
                        assert(t.drop_last() =~= es@.take(i - 1));
                        assert(t.last() == es@[i - 1]);
                    }
                    if str_eq(es[i - 1].0.as_str(), key) {
                        return Some(&es[i - 1].1);
                    }
                    i = i - 1;
                }
                None
            },
            _ => None,
        }
    }

    /// `Value::as_i64`.
    pub fn as_i64(&self) -> (r: Option<i64>)
        ensures
            r == int_of(Some(*self)),
    {
        match self {
            Json::Number(n) => *n,
            _ => None,
        }
    }

    /// `Value::as_str`.
    pub fn as_str(&self) -> (r: Option<&str>)
        ensures
            match r {
                Some(s) => self matches Json::Str(t) && t@ == s@,
                None => !(self is Str),
            },
    {
        match self {
            Json::Str(s) => Some(s.as_str()),
            _ => None,
        }
    }
}

/// `as_i64` of an optional value.
pub fn int_at(v: Option<&Json>) -> (r: Option<i64>)
    ensures
        r == int_of(match v {
            Some(j) => Some(*j),
            None => None,
        }),
{
    match v {
        Some(j) => j.as_i64(),
        None => None,
    }
}

/// `as_str` of an optional value, or the empty text.
pub fn text_at(v: Option<&Json>) -> (r: String)
    ensures
        r@ == text_or_empty(match v {
            Some(j) => Some(*j),
            None => None,
        }),
{
    match v {
        Some(Json::Str(s)) => s.clone(),
        _ => String::new(),
    }
}

/// `as_array` of an optional value, or no items.
pub fn items_at(v: Option<&Json>) -> (r: &[Json])
    ensures
        r@ == items_of(match v {
            Some(j) => Some(*j),
            None => None,
        }),
{
    match v {
        Some(Json::Array(items)) => items.as_slice(),
        _ => &[],
    }
}

/// `as_object` of an optional value, or no members.
pub fn members_at(v: Option<&Json>) -> (r: &[(String, Json)])
    ensures
        r@ == members_of(match v {
            Some(j) => Some(*j),
            None => None,
        }),
{
    match v {
        Some(Json::Object(es)) => es.as_slice(),
        _ => &[],
    }
}

} // verus!
