//! Reading and building JSON documents.

use vstd::prelude::*;

use crate::json;
use crate::json::{Json, JsonNumber, JsonV};
use crate::text;

verus! {

broadcast use json::group_json;

/// The value under `key` in a vector of entries.
pub fn find_in<'a>(entries: &'a Vec<(String, Json)>, key: &str) -> (r: Option<&'a Json>)
    ensures
        json::ref_model(r) == json::find(json::entry_models(entries@), key@),
{
    let mut i: usize = 0;
    let all: Ghost<Seq<(Seq<char>, JsonV)>> = Ghost(json::entry_models(entries@));
    assert(all@.skip(0) =~= all@);
    while i < entries.len()
        invariant
            i <= entries@.len(),
            all@ == json::entry_models(entries@),
            json::find(all@, key@) == json::find(all@.skip(i as int), key@),
        decreases entries@.len() - i,
    {
        assert(all@.skip(i as int)[0] == all@[i as int]);
        if text::str_eq(entries[i].0.as_str(), key) {
            return Some(&entries[i].1);
        }
        assert(all@.skip(i as int).drop_first() =~= all@.skip(i + 1));
        i += 1;
    }
    None
}

impl Json {
    /// The member of an object under this key.
    pub fn get(&self, key: &str) -> (r: Option<&Json>)
        ensures
            json::ref_model(r) == self@.get(key@),
    {
        match self {
            Json::Object(entries) => find_in(entries, key),
            _ => None,
        }
    }

    /// The text of a string.
    pub fn as_str(&self) -> (r: Option<&str>)
        ensures
            text::opt_str(r) == self@.as_str(),
    {
        match self {
            Json::Str(s) => Some(s.as_str()),
            _ => None,
        }
    }

    /// The value of a boolean.
    pub fn as_bool(&self) -> (r: Option<bool>)
        ensures
            r == self@.as_bool(),
    {
        match self {
            Json::Bool(b) => Some(*b),
            _ => None,
        }
    }

    /// The value of a number that is a `u64`.
    pub fn as_u64(&self) -> (r: Option<u64>)
        ensures
            r == self@.as_u64(),
    {
        match self {
            Json::Number(n) => n.unsigned,
            _ => None,
        }
    }

    /// The value of a number that is an `i64`.
    pub fn as_i64(&self) -> (r: Option<i64>)
        ensures
            r == self@.as_i64(),
    {
        match self {
            Json::Number(n) => n.signed,
            _ => None,
        }
    }

    /// The items of an array.
    pub fn as_array(&self) -> (r: Option<&Vec<Json>>)
        ensures
            match r {
                Some(v) => self@.as_array() == Some(json::models(v@)),
                None => self@.as_array() is None,
            },
    {
        match self {
            Json::Array(items) => Some(items),
            _ => None,
        }
    }

    /// The entries of an object.
    pub fn as_object(&self) -> (r: Option<&Vec<(String, Json)>>)
        ensures
            match r {
                Some(v) => self@.as_object() == Some(json::entry_models(v@)),
                None => self@.as_object() is None,
            },
    {
        match self {
            Json::Object(entries) => Some(entries),
            _ => None,
        }
    }

    /// The document is `null`.
    pub fn is_null(&self) -> (r: bool)
        ensures
            r == (self@ is Null),
    {
        match self {
            Json::Null => true,
            _ => false,
        }
    }

    /// The string under this key.
    pub fn str_at(&self, key: &str) -> (r: Option<&str>)
        ensures
            text::opt_str(r) == self@.str_at(key@),
    {
        match self.get(key) {
            Some(v) => v.as_str(),
            None => None,
        }
    }

    /// A copy of the string under this key.
    pub fn text_at(&self, key: &str) -> (r: Option<String>)
        ensures
            text::opt_text(r) == self@.str_at(key@),
    {
        text::opt_owned(self.str_at(key))
    }

    /// The array under this key.
    pub fn array_at(&self, key: &str) -> (r: Option<&Vec<Json>>)
        ensures
            match r {
                Some(v) => self@.array_at(key@) == Some(json::models(v@)),
                None => self@.array_at(key@) is None,
            },
    {
        match self.get(key) {
            Some(v) => v.as_array(),
            None => None,
        }
    }

    /// The boolean under this key.
    pub fn bool_at(&self, key: &str) -> (r: Option<bool>)
        ensures
            r == self@.bool_at(key@),
    {
        match self.get(key) {
            Some(v) => v.as_bool(),
            None => None,
        }
    }

    /// The `u64` under this key.
    pub fn u64_at(&self, key: &str) -> (r: Option<u64>)
        ensures
            r == self@.u64_at(key@),
    {
        match self.get(key) {
            Some(v) => v.as_u64(),
            None => None,
        }
    }

    /// The `i64` under this key.
    pub fn i64_at(&self, key: &str) -> (r: Option<i64>)
        ensures
            r == self@.i64_at(key@),
    {
        match self.get(key) {
            Some(v) => v.as_i64(),
            None => None,
        }
    }

    /// A copy of the document.
    pub fn copy(&self) -> (r: Json)
        ensures
            r@ == self@,
        decreases self,
    {
        match self {
            Json::Null => Json::Null,
            Json::Bool(b) => Json::Bool(*b),
            Json::Number(n) => Json::Number(
                JsonNumber {
                    unsigned: n.unsigned,
                    signed: n.signed,
                    cut_unsigned: n.cut_unsigned,
                    cut_signed: n.cut_signed,
                    text: n.text.clone(),
                },
            ),
            Json::Str(s) => Json::Str(s.clone()),
            Json::Array(items) => {
                let mut out: Vec<Json> = Vec::new();
                let mut i: usize = 0;
                while i < items.len()
                    invariant
                        i <= items@.len(),
                        *self == Json::Array(*items),
                        json::models(out@) == json::models(items@).take(i as int),
                    decreases items@.len() - i,
                {
                    let before: Ghost<Seq<JsonV>> = Ghost(json::models(out@));
                    assert(decreases_to!(*self => self->Array_0));
                    assert(decreases_to!(*items => items@));
                    assert(decreases_to!(items@ => items@[i as int]));
                    let item: Json = items[i].copy();
                    out.push(item);
                    assert(json::models(out@) =~= before@.push(item@));
                    i += 1;
                    assert(json::models(out@) =~= json::models(items@).take(i as int));
                }
                assert(json::models(items@).take(i as int) =~= json::models(items@));
                Json::Array(out)
            },
            Json::Object(entries) => {
                let mut out: Vec<(String, Json)> = Vec::new();
                let mut i: usize = 0;
                while i < entries.len()
                    invariant
                        i <= entries@.len(),
                        *self == Json::Object(*entries),
                        json::entry_models(out@) == json::entry_models(entries@).take(i as int),
                    decreases entries@.len() - i,
                {
                    let before: Ghost<Seq<(Seq<char>, JsonV)>> = Ghost(json::entry_models(out@));
                    let key: String = entries[i].0.clone();
                    assert(decreases_to!(*self => self->Object_0));
                    assert(decreases_to!(*entries => entries@));
                    assert(decreases_to!(entries@ => entries@[i as int]));
                    assert(decreases_to!(entries@[i as int] => entries@[i as int].1));
                    let value: Json = entries[i].1.copy();
                    out.push((key, value));
                    assert(json::entry_models(out@) =~= before@.push((key@, value@)));
                    i += 1;
                    assert(json::entry_models(out@) =~= json::entry_models(entries@).take(i as int));
                }
                assert(json::entry_models(entries@).take(i as int) =~= json::entry_models(entries@));
                Json::Object(out)
            },
        }
    }
}

/// A copy of a vector of documents.
pub fn copy_items(items: &Vec<Json>) -> (r: Vec<Json>)
    ensures
        json::models(r@) == json::models(items@),
{
    let mut out: Vec<Json> = Vec::new();
    let mut i: usize = 0;
    while i < items.len()
        invariant
            i <= items@.len(),
            json::models(out@) == json::models(items@).take(i as int),
        decreases items@.len() - i,
    {
        let ghost before = json::models(out@);
        let item: Json = items[i].copy();
        out.push(item);
        assert(json::models(out@) =~= before.push(item@));
        i += 1;
        assert(json::models(out@) =~= json::models(items@).take(i as int));
    }
    assert(json::models(items@).take(i as int) =~= json::models(items@));
    out
}

/// A copy of an optional document.
pub fn copy_opt(j: Option<&Json>) -> (r: Option<Json>)
    ensures
        json::opt_model(r) == json::ref_model(j),
{
    match j {
        Some(v) => Some(v.copy()),
        None => None,
    }
}

// ---------------------------------------------------------------------------
// Building
// ---------------------------------------------------------------------------

/// Bind `key` to `value` among the entries.
pub fn bind_in(entries: &mut Vec<(String, Json)>, key: &str, value: Json)
    ensures
        json::entry_models(final(entries)@) == json::bind(json::entry_models(old(entries)@), key@, value@),
{
    let all: Ghost<Seq<(Seq<char>, JsonV)>> = Ghost(json::entry_models(entries@));
    let mut i: usize = 0;
    assert(all@.skip(0) =~= all@);
    assert(all@.take(0) + json::bind(all@, key@, value@) =~= json::bind(all@, key@, value@));
    while i < entries.len()
        invariant
            i <= entries@.len(),
            entries@ == old(entries)@,
            all@ == json::entry_models(entries@),
            all@.take(i as int) + json::bind(all@.skip(i as int), key@, value@) == json::bind(
                all@,
                key@,
                value@,
            ),
        decreases entries@.len() - i,
    {
        let rest: Ghost<Seq<(Seq<char>, JsonV)>> = Ghost(all@.skip(i as int));
        assert(rest@[0] == all@[i as int]);
        assert(rest@.drop_first() =~= all@.skip(i + 1));
        if text::str_eq(entries[i].0.as_str(), key) {
            let entry: (String, Json) = (key.to_owned(), value);
            entries.set(i, entry);
            assert(json::entry_models(entries@) =~= all@.take(i as int) + (seq![(key@, value@)]
                + rest@.drop_first()));
            return ;
        }
        if text::text_less(key, entries[i].0.as_str()) {
            let entry: (String, Json) = (key.to_owned(), value);
            entries.insert(i, entry);
            assert(json::entry_models(entries@) =~= all@.take(i as int) + (seq![(key@, value@)] + rest@));
            return ;
        }
        assert(all@.take(i + 1) + json::bind(all@.skip(i + 1), key@, value@) =~= all@.take(i as int) + (
        seq![all@[i as int]] + json::bind(all@.skip(i + 1), key@, value@)));
        i += 1;
    }
    assert(all@.skip(i as int) =~= Seq::empty());
    let entry: (String, Json) = (key.to_owned(), value);
    entries.push(entry);
    assert(json::entry_models(entries@) =~= all@.take(i as int) + seq![(key@, value@)]);
}

/// A string document.
pub fn json_str(s: &str) -> (r: Json)
    ensures
        r@ == JsonV::Str(s@),
{
    Json::Str(s.to_owned())
}

/// An object with one entry.
pub fn make_object1(key: &str, value: Json) -> (r: Json)
    ensures
        r@ == json::object1(key@, value@),
{
    let mut entries: Vec<(String, Json)> = Vec::new();
    entries.push((key.to_owned(), value));
    assert(json::entry_models(entries@) =~= seq![(key@, value@)]);
    Json::Object(entries)
}

/// An object with two entries, bound one after the other.
pub fn make_object2(k1: &str, v1: Json, k2: &str, v2: Json) -> (r: Json)
    ensures
        r@ == json::object2(k1@, v1@, k2@, v2@),
{
    let mut entries: Vec<(String, Json)> = Vec::new();
    entries.push((k1.to_owned(), v1));
    assert(json::entry_models(entries@) =~= seq![(k1@, v1@)]);
    bind_in(&mut entries, k2, v2);
    Json::Object(entries)
}

} // verus!
