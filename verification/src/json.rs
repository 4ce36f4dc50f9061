//! JSON documents: the type the library works on and its mathematical model.

use vstd::prelude::*;

use crate::text;

verus! {

// ---------------------------------------------------------------------------
// The model
// ---------------------------------------------------------------------------

/// A number, by what the library reads of it.
#[verifier::ext_equal]
pub struct NumberV {
    /// The number as a `u64`, if it is one.
    pub unsigned: Option<u64>,
    /// The number as an `i64`, if it is one.
    pub signed: Option<i64>,
    /// The number read in floating point and cut to a `u64`.
    pub cut_unsigned: u64,
    /// The number read in floating point and cut to an `i64`.
    pub cut_signed: i64,
    /// The number as it prints.
    pub text: Seq<char>,
}

/// A document as the contracts see it. The entries of an object stand in a
/// sequence, because an object is walked in the order of its keys.
#[verifier::ext_equal]
pub enum JsonV {
    Null,
    Bool(bool),
    Number(NumberV),
    Str(Seq<char>),
    Array(Seq<JsonV>),
    Object(Seq<(Seq<char>, JsonV)>),
}

/// The value of the first entry with this key.
pub open spec fn find(entries: Seq<(Seq<char>, JsonV)>, key: Seq<char>) -> Option<JsonV>
    decreases entries.len(),
{
    if entries.len() == 0 {
        None
    } else if entries[0].0 == key {
        Some(entries[0].1)
    } else {
        find(entries.drop_first(), key)
    }
}

/// The entries with `key` bound to `value`: an entry with that key gets the
/// new value, otherwise the entry takes its place in key order.
pub open spec fn bind(
    entries: Seq<(Seq<char>, JsonV)>,
    key: Seq<char>,
    value: JsonV,
) -> Seq<(Seq<char>, JsonV)>
    decreases entries.len(),
{
    if entries.len() == 0 {
        seq![(key, value)]
    } else if entries[0].0 == key {
        seq![(key, value)] + entries.drop_first()
    } else if text::lex_less(key, entries[0].0) {
        seq![(key, value)] + entries
    } else {
        seq![entries[0]] + bind(entries.drop_first(), key, value)
    }
}

/// The keys are strictly increasing, so each occurs once.
pub open spec fn sorted_keys(entries: Seq<(Seq<char>, JsonV)>) -> bool {
    forall|i: int, j: int|
        0 <= i < j < entries.len() ==> text::lex_less(#[trigger] entries[i].0, #[trigger] entries[j].0)
}

impl JsonV {
    /// The member of an object under this key.
    pub open spec fn get(self, key: Seq<char>) -> Option<JsonV> {
        match self {
            JsonV::Object(entries) => find(entries, key),
            _ => None,
        }
    }

    /// The text of a string.
    pub open spec fn as_str(self) -> Option<Seq<char>> {
        match self {
            JsonV::Str(s) => Some(s),
            _ => None,
        }
    }

    /// The value of a boolean.
    pub open spec fn as_bool(self) -> Option<bool> {
        match self {
            JsonV::Bool(b) => Some(b),
            _ => None,
        }
    }

    /// The value of a number that is a `u64`.
    pub open spec fn as_u64(self) -> Option<u64> {
        match self {
            JsonV::Number(n) => n.unsigned,
            _ => None,
        }
    }

    /// The value of a number that is an `i64`.
    pub open spec fn as_i64(self) -> Option<i64> {
        match self {
            JsonV::Number(n) => n.signed,
            _ => None,
        }
    }

    /// The items of an array.
    pub open spec fn as_array(self) -> Option<Seq<JsonV>> {
        match self {
            JsonV::Array(items) => Some(items),
            _ => None,
        }
    }

    /// The entries of an object.
    pub open spec fn as_object(self) -> Option<Seq<(Seq<char>, JsonV)>> {
        match self {
            JsonV::Object(entries) => Some(entries),
            _ => None,
        }
    }

    /// The member under this key, or `null`.
    pub open spec fn member(self, key: Seq<char>) -> JsonV {
        match self.get(key) {
            Some(v) => v,
            None => JsonV::Null,
        }
    }

    /// The string under this key.
    pub open spec fn str_at(self, key: Seq<char>) -> Option<Seq<char>> {
        match self.get(key) {
            Some(v) => v.as_str(),
            None => None,
        }
    }

    /// The array under this key.
    pub open spec fn array_at(self, key: Seq<char>) -> Option<Seq<JsonV>> {
        match self.get(key) {
            Some(v) => v.as_array(),
            None => None,
        }
    }

    /// The items of the array under this key, none if there is no such array.
    pub open spec fn items_at(self, key: Seq<char>) -> Seq<JsonV> {
        match self.array_at(key) {
            Some(items) => items,
            None => Seq::empty(),
        }
    }

    /// The boolean under this key.
    pub open spec fn bool_at(self, key: Seq<char>) -> Option<bool> {
        match self.get(key) {
            Some(v) => v.as_bool(),
            None => None,
        }
    }

    /// The `u64` under this key.
    pub open spec fn u64_at(self, key: Seq<char>) -> Option<u64> {
        match self.get(key) {
            Some(v) => v.as_u64(),
            None => None,
        }
    }

    /// The `i64` under this key.
    pub open spec fn i64_at(self, key: Seq<char>) -> Option<i64> {
        match self.get(key) {
            Some(v) => v.as_i64(),
            None => None,
        }
    }

    /// In every object of the document the keys are strictly increasing.
    pub open spec fn wf(self) -> bool
        decreases self,
    {
        match self {
            JsonV::Array(items) => forall|i: int|
                0 <= i < items.len() ==> (#[trigger] items[i]).wf(),
            JsonV::Object(entries) => sorted_keys(entries) && forall|i: int|
                0 <= i < entries.len() ==> (#[trigger] entries[i]).1.wf(),
            _ => true,
        }
    }
}

// ---------------------------------------------------------------------------
// The type
// ---------------------------------------------------------------------------

/// A number, by what the library reads of it; see [`NumberV`].
#[derive(Debug, PartialEq)]
pub struct JsonNumber {
    pub unsigned: Option<u64>,
    pub signed: Option<i64>,
    pub cut_unsigned: u64,
    pub cut_signed: i64,
    pub text: String,
}

impl View for JsonNumber {
    type V = NumberV;

    open spec fn view(&self) -> NumberV {
        NumberV {
            unsigned: self.unsigned,
            signed: self.signed,
            cut_unsigned: self.cut_unsigned,
            cut_signed: self.cut_signed,
            text: self.text@,
        }
    }
}

/// A JSON document.
#[derive(Debug, PartialEq)]
pub enum Json {
    Null,
    Bool(bool),
    Number(JsonNumber),
    Str(String),
    Array(Vec<Json>),
    Object(Vec<(String, Json)>),
}

/// The model of a document.
pub open spec fn model(j: Json) -> JsonV
    decreases j,
{
    match j {
        Json::Null => JsonV::Null,
        Json::Bool(b) => JsonV::Bool(b),
        Json::Number(n) => JsonV::Number(n@),
        Json::Str(s) => JsonV::Str(s@),
        Json::Array(items) => JsonV::Array(
            Seq::new(
                items@.len(),
                |i: int|
                    if 0 <= i < items@.len() {
                        model(items@[i])
                    } else {
                        JsonV::Null
                    },
            ),
        ),
        Json::Object(entries) => JsonV::Object(
            Seq::new(
                entries@.len(),
                |i: int|
                    if 0 <= i < entries@.len() {
                        (entries@[i].0@, model(entries@[i].1))
                    } else {
                        (Seq::empty(), JsonV::Null)
                    },
            ),
        ),
    }
}

impl View for Json {
    type V = JsonV;

    open spec fn view(&self) -> JsonV {
        model(*self)
    }
}

/// The models of a sequence of documents.
pub open spec fn models(v: Seq<Json>) -> Seq<JsonV> {
    Seq::new(v.len(), |i: int| v[i]@)
}

/// The models of a sequence of entries.
pub open spec fn entry_models(v: Seq<(String, Json)>) -> Seq<(Seq<char>, JsonV)> {
    Seq::new(v.len(), |i: int| (v[i].0@, v[i].1@))
}

/// The model of an optional document.
pub open spec fn opt_model(o: Option<Json>) -> Option<JsonV> {
    match o {
        Some(j) => Some(j@),
        None => None,
    }
}

/// The model of an optional reference to a document.
pub open spec fn ref_model(o: Option<&Json>) -> Option<JsonV> {
    match o {
        Some(j) => Some(j@),
        None => None,
    }
}

/// An array is modelled by the models of its items.
pub broadcast proof fn lemma_array_model(v: Vec<Json>)
    ensures
        #[trigger] model(Json::Array(v)) == JsonV::Array(models(v@)),
{
    assert(model(Json::Array(v))->Array_0 =~= models(v@));
}

/// An object is modelled by the models of its entries.
pub broadcast proof fn lemma_object_model(v: Vec<(String, Json)>)
    ensures
        #[trigger] model(Json::Object(v)) == JsonV::Object(entry_models(v@)),
{
    assert(model(Json::Object(v))->Object_0 =~= entry_models(v@));
}

pub broadcast group group_json {
    lemma_array_model,
    lemma_object_model,
}

/// An object with one entry.
pub open spec fn object1(key: Seq<char>, value: JsonV) -> JsonV {
    JsonV::Object(seq![(key, value)])
}

/// An object with two entries, bound one after the other.
pub open spec fn object2(k1: Seq<char>, v1: JsonV, k2: Seq<char>, v2: JsonV) -> JsonV {
    JsonV::Object(bind(seq![(k1, v1)], k2, v2))
}

// ---------------------------------------------------------------------------
// Laws
// ---------------------------------------------------------------------------

/// What was bound is found, and nothing else changes.
pub proof fn find_after_bind(
    entries: Seq<(Seq<char>, JsonV)>,
    key: Seq<char>,
    value: JsonV,
    other: Seq<char>,
)
    ensures
        find(bind(entries, key, value), key) == Some(value),
        other != key ==> find(bind(entries, key, value), other) == find(entries, other),
    decreases entries.len(),
{
    reveal_with_fuel(find, 2);
    let bound = bind(entries, key, value);
    if entries.len() == 0 {
        assert(bound.drop_first() =~= Seq::empty());
    } else if entries[0].0 == key {
        assert(bound.drop_first() =~= entries.drop_first());
    } else if text::lex_less(key, entries[0].0) {
        assert(bound.drop_first() =~= entries);
    } else {
        find_after_bind(entries.drop_first(), key, value, other);
        assert(bound.drop_first() =~= bind(entries.drop_first(), key, value));
    }
}

/// Binding keeps the keys strictly increasing.
pub proof fn bind_keeps_order(entries: Seq<(Seq<char>, JsonV)>, key: Seq<char>, value: JsonV)
    requires
        sorted_keys(entries),
    ensures
        sorted_keys(bind(entries, key, value)),
        forall|i: int|
            0 <= i < bind(entries, key, value).len() ==> {
                ||| (#[trigger] bind(entries, key, value)[i]) == (key, value)
                ||| entries.contains(bind(entries, key, value)[i])
            },
    decreases entries.len(),
{
    let bound = bind(entries, key, value);
    if entries.len() == 0 {
    } else if entries[0].0 == key {
        assert forall|i: int, j: int| 0 <= i < j < bound.len() implies text::lex_less(
            #[trigger] bound[i].0,
            #[trigger] bound[j].0,
        ) by {
            assert(bound[j] == entries[j]);
            assert(bound[i].0 == entries[i].0);
        }
        assert forall|i: int| 0 <= i < bound.len() implies #[trigger] bound[i] == (key, value)
            || entries.contains(bound[i]) by {
            if i > 0 {
                assert(bound[i] == entries[i]);
            }
        }
    } else if text::lex_less(key, entries[0].0) {
        assert forall|i: int, j: int| 0 <= i < j < bound.len() implies text::lex_less(
            #[trigger] bound[i].0,
            #[trigger] bound[j].0,
        ) by {
            assert(bound[j] == entries[j - 1]);
            if i > 0 {
                assert(bound[i] == entries[i - 1]);
            } else if j > 1 {
                text::lemma_lex_transitive(key, entries[0].0, entries[j - 1].0);
            }
        }
        assert forall|i: int| 0 <= i < bound.len() implies #[trigger] bound[i] == (key, value)
            || entries.contains(bound[i]) by {
            if i > 0 {
                assert(bound[i] == entries[i - 1]);
            }
        }
    } else {
        let rest = entries.drop_first();
        assert forall|i: int, j: int| 0 <= i < j < rest.len() implies text::lex_less(
            #[trigger] rest[i].0,
            #[trigger] rest[j].0,
        ) by {
            assert(rest[i] == entries[i + 1] && rest[j] == entries[j + 1]);
        }
        bind_keeps_order(rest, key, value);
        let tail = bind(rest, key, value);
        assert(bound =~= seq![entries[0]] + tail);
        text::lemma_lex_total(key, entries[0].0);
        assert forall|i: int| 0 <= i < bound.len() implies #[trigger] bound[i] == (key, value)
            || entries.contains(bound[i]) by {
            if i == 0 {
                assert(bound[0] == entries[0]);
            } else {
                assert(bound[i] == tail[i - 1]);
                if tail[i - 1] != (key, value) {
                    let k = choose|k: int| 0 <= k < rest.len() && rest[k] == tail[i - 1];
                    assert(entries[k + 1] == bound[i]);
                }
            }
        }
        assert forall|i: int, j: int| 0 <= i < j < bound.len() implies text::lex_less(
            #[trigger] bound[i].0,
            #[trigger] bound[j].0,
        ) by {
            assert(bound[j] == tail[j - 1]);
            if i > 0 {
                assert(bound[i] == tail[i - 1]);
            } else {
                if tail[j - 1] != (key, value) {
                    let k = choose|k: int| 0 <= k < rest.len() && rest[k] == tail[j - 1];
                    assert(entries[k + 1] == bound[j]);
                }
            }
        }
    }
}

/// A member of an object is found under its key, whatever stands around it,
/// as long as no other member has that key; a key that no member has finds
/// nothing.
pub proof fn members_are_found(entries: Seq<(Seq<char>, JsonV)>, i: int, key: Seq<char>)
    ensures
        0 <= i < entries.len() && entries[i].0 == key && (forall|j: int|
            0 <= j < i ==> (#[trigger] entries[j]).0 != key) ==> JsonV::Object(entries).get(key)
            == Some(entries[i].1),
        (forall|j: int| 0 <= j < entries.len() ==> (#[trigger] entries[j]).0 != key)
            ==> JsonV::Object(entries).get(key) is None,
    decreases entries.len(),
{
    if entries.len() > 0 {
        let rest = entries.drop_first();
        assert forall|j: int| 0 <= j < rest.len() implies #[trigger] rest[j] == entries[j + 1] by {}
        members_are_found(rest, i - 1, key);
        if entries[0].0 != key {
            assert(find(entries, key) == find(rest, key));
        }
        if 0 < i < entries.len() && entries[i].0 == key && (forall|j: int|
            0 <= j < i ==> (#[trigger] entries[j]).0 != key) {
            assert(entries[0].0 != key);
            assert(rest[i - 1].0 == key);
            assert forall|j: int| 0 <= j < i - 1 implies (#[trigger] rest[j]).0 != key by {
                assert(entries[j + 1].0 != key);
            }
        }
        if forall|j: int| 0 <= j < entries.len() ==> (#[trigger] entries[j]).0 != key {
            assert(entries[0].0 != key);
            assert forall|j: int| 0 <= j < rest.len() implies (#[trigger] rest[j]).0 != key by {
                assert(entries[j + 1].0 != key);
            }
        }
    }
}

/// A value is read only as what it is.
pub proof fn values_are_read_as_they_are(s: Seq<char>, b: bool, n: NumberV, items: Seq<JsonV>)
    ensures
        JsonV::Str(s).as_str() == Some(s),
        JsonV::Bool(b).as_bool() == Some(b),
        JsonV::Number(n).as_u64() == n.unsigned,
        JsonV::Number(n).as_i64() == n.signed,
        JsonV::Array(items).as_array() == Some(items),
        JsonV::Null.as_str() is None && JsonV::Null.as_bool() is None && JsonV::Null.as_u64()
            is None && JsonV::Null.as_array() is None && JsonV::Null.get(s) is None,
        JsonV::Bool(b).as_str() is None,
        JsonV::Number(n).as_str() is None,
        JsonV::Array(items).get(s) is None,
{
}

} // verus!
