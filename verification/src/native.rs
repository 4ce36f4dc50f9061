//! The boundary to the `serde_json` crate: text to documents and back.

use vstd::prelude::*;

use crate::json;
use crate::json::{Json, JsonNumber, JsonV, NumberV};
use crate::text;

verus! {

broadcast use json::group_json;

// ---------------------------------------------------------------------------
// What is taken from serde_json
// ---------------------------------------------------------------------------

/// `serde_json::Value`, carried without looking inside.
#[verifier::external_type_specification]
#[verifier::external_body]
pub struct ExValue(serde_json::Value);

/// `serde_json::Number`, carried without looking inside.
#[verifier::external_type_specification]
#[verifier::external_body]
pub struct ExNumber(serde_json::Number);

/// `serde_json::Error`, carried without looking inside.
#[verifier::external_type_specification]
#[verifier::external_body]
pub struct ExError(serde_json::Error);

/// What a `serde_json::Value` holds.
pub uninterp spec fn held(value: serde_json::Value) -> JsonV;

/// What the library reads of a `serde_json::Number`.
pub uninterp spec fn reading(number: serde_json::Number) -> NumberV;

/// The document that `serde_json::from_str` reads from a text, if it reads one.
pub uninterp spec fn parsed(text: Seq<char>) -> Option<JsonV>;

/// The number that the text of a number is read as by the `FromStr` of
/// `serde_json::Number`, if it is read.
pub uninterp spec fn numbered(text: Seq<char>) -> Option<NumberV>;

/// What a `serde_json::Value` that holds this document displays as.
pub uninterp spec fn displayed(document: JsonV) -> Seq<char>;

/// What `serde_json::to_string` makes of a `serde_json::Value` that holds this
/// document, if it succeeds.
pub uninterp spec fn serialized(document: JsonV) -> Option<Seq<char>>;

/// One level of a `serde_json::Value`.
pub enum Shape {
    Null,
    Bool(bool),
    Number(serde_json::Number),
    Str(String),
    Array(Vec<serde_json::Value>),
    Object(Vec<(String, serde_json::Value)>),
}

/// What the values of a vector hold.
pub open spec fn held_items(v: Seq<serde_json::Value>) -> Seq<JsonV> {
    Seq::new(v.len(), |i: int| held(v[i]))
}

/// What the entries of a vector hold.
pub open spec fn held_entries(v: Seq<(String, serde_json::Value)>) -> Seq<(Seq<char>, JsonV)> {
    Seq::new(v.len(), |i: int| (v[i].0@, held(v[i].1)))
}

/// What one level holds.
pub open spec fn shape_held(shape: Shape) -> JsonV {
    match shape {
        Shape::Null => JsonV::Null,
        Shape::Bool(b) => JsonV::Bool(b),
        Shape::Number(n) => JsonV::Number(reading(n)),
        Shape::Str(s) => JsonV::Str(s@),
        Shape::Array(items) => JsonV::Array(held_items(items@)),
        Shape::Object(entries) => JsonV::Object(held_entries(entries@)),
    }
}

/// The entries of an object to which these were added one after the other.
pub open spec fn gathered(entries: Seq<(Seq<char>, JsonV)>) -> Seq<(Seq<char>, JsonV)>
    decreases entries.len(),
{
    if entries.len() == 0 {
        Seq::empty()
    } else {
        json::bind(gathered(entries.drop_last()), entries.last().0, entries.last().1)
    }
}

/// `serde_json::from_str::<Value>`: the same text always gives the same
/// document, or no document.
#[verifier::external_body]
fn value_from_str(text: &str) -> (r: Result<serde_json::Value, serde_json::Error>)
    ensures
        match r {
            Ok(v) => parsed(text@) == Some(held(v)),
            Err(_) => parsed(text@) is None,
        },
{
    serde_json::from_str::<serde_json::Value>(text)
}

/// The variants of `serde_json::Value`, taken apart one level deep. Its map is
/// a `BTreeMap`, so the entries of an object come in the order of their keys.
#[verifier::external_body]
fn value_shape(value: serde_json::Value) -> (r: Shape)
    ensures
        shape_held(r) == held(value),
        r matches Shape::Object(entries) ==> json::sorted_keys(held_entries(entries@)),
{
    match value {
        serde_json::Value::Null => Shape::Null,
        serde_json::Value::Bool(b) => Shape::Bool(b),
        serde_json::Value::Number(n) => Shape::Number(n),
        serde_json::Value::String(s) => Shape::Str(s),
        serde_json::Value::Array(items) => Shape::Array(items),
        serde_json::Value::Object(map) => Shape::Object(map.into_iter().collect()),
    }
}

/// The variants of `serde_json::Value`, put together one level deep. An object
/// collects its entries in a `BTreeMap`, which keeps them all where no key
/// occurs twice.
#[verifier::external_body]
fn value_made(shape: Shape) -> (r: serde_json::Value)
    requires
        shape matches Shape::Object(entries) ==> json::sorted_keys(held_entries(entries@)),
    ensures
        held(r) == shape_held(shape),
{
    match shape {
        Shape::Null => serde_json::Value::Null,
        Shape::Bool(b) => serde_json::Value::Bool(b),
        Shape::Number(n) => serde_json::Value::Number(n),
        Shape::Str(s) => serde_json::Value::String(s),
        Shape::Array(items) => serde_json::Value::Array(items),
        Shape::Object(entries) => serde_json::Value::Object(entries.into_iter().collect()),
    }
}

/// `Number::as_u64`, `Number::as_i64`, `Number::as_f64` (cut to the two
/// integer types) and the number's `Display`, read together. What a number
/// displays as is read as the same number again: the crate is built with
/// `float_roundtrip`, which keeps floating point exact.
#[verifier::external_body]
fn number_reading(number: &serde_json::Number) -> (r: JsonNumber)
    ensures
        r@ == reading(*number),
        numbered(r.text@) == Some(r@),
{
    JsonNumber {
        unsigned: number.as_u64(),
        signed: number.as_i64(),
        cut_unsigned: number.as_f64().map_or(0, |x| x as u64),
        cut_signed: number.as_f64().map_or(0, |x| x as i64),
        text: number.to_string(),
    }
}

/// The `FromStr` of `serde_json::Number`: the same text always gives the same
/// number, or no number.
#[verifier::external_body]
fn number_from_str(text: &str) -> (r: Result<serde_json::Number, serde_json::Error>)
    ensures
        match r {
            Ok(n) => numbered(text@) == Some(reading(n)),
            Err(_) => numbered(text@) is None,
        },
{
    text.parse::<serde_json::Number>()
}

/// The `Display` of `serde_json::Value`: compact JSON, a function of what the
/// value holds.
#[verifier::external_body]
fn value_display(value: &serde_json::Value) -> (r: String)
    ensures
        r@ == displayed(held(*value)),
{
    value.to_string()
}

/// `serde_json::to_string`: whether it succeeds, and the text, are functions
/// of what the value holds.
#[verifier::external_body]
fn value_serialize(value: &serde_json::Value) -> (r: Result<String, serde_json::Error>)
    ensures
        match r {
            Ok(s) => serialized(held(*value)) == Some(s@),
            Err(_) => serialized(held(*value)) is None,
        },
{
    serde_json::to_string(value)
}

// ---------------------------------------------------------------------------
// What the library makes of it
// ---------------------------------------------------------------------------

/// Every number of the document is what its text is read as.
pub open spec fn numbers_hold(document: JsonV) -> bool
    decreases document,
{
    match document {
        JsonV::Number(n) => numbered(n.text) == Some(n),
        JsonV::Array(items) => forall|i: int|
            0 <= i < items.len() ==> numbers_hold(#[trigger] items[i]),
        JsonV::Object(entries) => forall|i: int|
            0 <= i < entries.len() ==> numbers_hold((#[trigger] entries[i]).1),
        _ => true,
    }
}

/// A document as a `serde_json::Value` keeps it: each number is read from its
/// text, or left as `null`, and each object has its entries in key order.
pub open spec fn kept(document: JsonV) -> JsonV
    decreases document,
{
    match document {
        JsonV::Number(n) => match numbered(n.text) {
            Some(number) => JsonV::Number(number),
            None => JsonV::Null,
        },
        JsonV::Array(items) => JsonV::Array(
            Seq::new(
                items.len(),
                |i: int|
                    if 0 <= i < items.len() {
                        kept(items[i])
                    } else {
                        JsonV::Null
                    },
            ),
        ),
        JsonV::Object(entries) => JsonV::Object(gathered(kept_entries(entries))),
        _ => document,
    }
}

/// The entries with each value as it is kept.
pub open spec fn kept_entries(entries: Seq<(Seq<char>, JsonV)>) -> Seq<(Seq<char>, JsonV)>
    decreases entries,
{
    Seq::new(
        entries.len(),
        |i: int|
            if 0 <= i < entries.len() {
                (entries[i].0, kept(entries[i].1))
            } else {
                (Seq::empty(), JsonV::Null)
            },
    )
}

/// The document in a `serde_json::Value`.
fn document_of(value: serde_json::Value) -> (r: Json)
    ensures
        r@ == held(value),
        r@.wf(),
        numbers_hold(r@),
    decreases held(value),
{
    match value_shape(value) {
        Shape::Null => Json::Null,
        Shape::Bool(b) => Json::Bool(b),
        Shape::Number(n) => Json::Number(number_reading(&n)),
        Shape::Str(s) => Json::Str(s),
        Shape::Array(items) => {
            let ghost all = held_items(items@);
            let mut rest: Vec<serde_json::Value> = items;
            let mut rev: Vec<Json> = Vec::new();
            let mut out: Vec<Json> = Vec::new();
            while rest.len() > 0
                invariant
                    held(value) == JsonV::Array(all),
                    held_items(rest@) == all.take(rest@.len() as int),
                    rest@.len() + rev@.len() == all.len(),
                    forall|i: int| 0 <= i < rev@.len() ==> (#[trigger] rev@[i])@ == all[all.len() - 1 - i],
                    forall|i: int| 0 <= i < rev@.len() ==> (#[trigger] rev@[i])@.wf() && numbers_hold(rev@[i]@),
                decreases rest@.len(),
            {
                let ghost k = rest@.len() - 1;
                let ghost before = rest@;
                match rest.pop() {
                    Some(v) => {
                        assert(held(v) == held_items(before)[k]);
                        assert(all.take(k + 1)[k] == all[k]);
                        assert(decreases_to!(held(value) => held(value)->Array_0));
                        assert(decreases_to!(all => all[k]));
                        rev.push(document_of(v));
                        assert(held_items(rest@) =~= all.take(k));
                    },
                    None => {},
                }
            }
            while rev.len() > 0
                invariant
                    out@.len() + rev@.len() == all.len(),
                    forall|i: int| 0 <= i < rev@.len() ==> (#[trigger] rev@[i])@ == all[all.len() - 1 - i],
                    forall|i: int| 0 <= i < out@.len() ==> (#[trigger] out@[i])@ == all[i],
                    forall|i: int| 0 <= i < rev@.len() ==> (#[trigger] rev@[i])@.wf() && numbers_hold(rev@[i]@),
                    forall|i: int| 0 <= i < out@.len() ==> (#[trigger] out@[i])@.wf() && numbers_hold(out@[i]@),
                decreases rev@.len(),
            {
                match rev.pop() {
                    Some(v) => {
                        out.push(v);
                    },
                    None => {},
                }
            }
            assert(json::models(out@) =~= all);
            assert forall|i: int| 0 <= i < all.len() implies (#[trigger] all[i]).wf() && numbers_hold(
                all[i],
            ) by {
                assert(out@[i]@.wf());
            }
            Json::Array(out)
        },
        Shape::Object(entries) => {
            let ghost all = held_entries(entries@);
            let mut rest: Vec<(String, serde_json::Value)> = entries;
            let mut rev: Vec<(String, Json)> = Vec::new();
            let mut out: Vec<(String, Json)> = Vec::new();
            while rest.len() > 0
                invariant
                    held(value) == JsonV::Object(all),
                    held_entries(rest@) == all.take(rest@.len() as int),
                    rest@.len() + rev@.len() == all.len(),
                    forall|i: int| 0 <= i < rev@.len() ==> (#[trigger] rev@[i]).0@ == all[all.len() - 1 - i].0,
                    forall|i: int| 0 <= i < rev@.len() ==> (#[trigger] rev@[i]).1@ == all[all.len() - 1 - i].1,
                    forall|i: int| 0 <= i < rev@.len() ==> (#[trigger] rev@[i]).1@.wf() && numbers_hold(rev@[i].1@),
                decreases rest@.len(),
            {
                let ghost k = rest@.len() - 1;
                let ghost before = rest@;
                match rest.pop() {
                    Some((key, v)) => {
                        assert(held_entries(before)[k] == (key@, held(v)));
                        assert(all.take(k + 1)[k] == all[k]);
                        assert(decreases_to!(held(value) => held(value)->Object_0));
                        assert(decreases_to!(all => all[k]));
                        assert(decreases_to!(all[k] => all[k].1));
                        rev.push((key, document_of(v)));
                        assert(held_entries(rest@) =~= all.take(k));
                    },
                    None => {},
                }
            }
            while rev.len() > 0
                invariant
                    out@.len() + rev@.len() == all.len(),
                    forall|i: int| 0 <= i < rev@.len() ==> (#[trigger] rev@[i]).0@ == all[all.len() - 1 - i].0,
                    forall|i: int| 0 <= i < rev@.len() ==> (#[trigger] rev@[i]).1@ == all[all.len() - 1 - i].1,
                    forall|i: int| 0 <= i < rev@.len() ==> (#[trigger] rev@[i]).1@.wf() && numbers_hold(rev@[i].1@),
                    forall|i: int| 0 <= i < out@.len() ==> (#[trigger] out@[i]).0@ == all[i].0,
                    forall|i: int| 0 <= i < out@.len() ==> (#[trigger] out@[i]).1@ == all[i].1,
                    forall|i: int| 0 <= i < out@.len() ==> (#[trigger] out@[i]).1@.wf() && numbers_hold(out@[i].1@),
                decreases rev@.len(),
            {
                match rev.pop() {
                    Some(e) => {
                        out.push(e);
                    },
                    None => {},
                }
            }
            assert(json::entry_models(out@) =~= all);
            assert forall|i: int| 0 <= i < all.len() implies (#[trigger] all[i]).1.wf()
                && numbers_hold(all[i].1) by {
                assert(out@[i].1@.wf());
            }
            Json::Object(out)
        },
    }
}

/// Bind a key to a value among entries.
fn bind_value(entries: &mut Vec<(String, serde_json::Value)>, key: &str, value: serde_json::Value)
    ensures
        held_entries(final(entries)@) == json::bind(
            held_entries(old(entries)@),
            key@,
            held(value),
        ),
{
    let ghost all = held_entries(entries@);
    let ghost v = held(value);
    let mut i: usize = 0;
    assert(all.skip(0) =~= all);
    assert(all.take(0) + json::bind(all, key@, v) =~= json::bind(all, key@, v));
    while i < entries.len()
        invariant
            i <= entries@.len(),
            entries@ == old(entries)@,
            all == held_entries(entries@),
            v == held(value),
            all.take(i as int) + json::bind(all.skip(i as int), key@, v) == json::bind(
                all,
                key@,
                v,
            ),
        decreases entries@.len() - i,
    {
        let ghost rest = all.skip(i as int);
        assert(rest[0] == all[i as int]);
        assert(rest.drop_first() =~= all.skip(i + 1));
        if text::str_eq(entries[i].0.as_str(), key) {
            entries.set(i, (key.to_owned(), value));
            assert(held_entries(entries@) =~= all.take(i as int) + (seq![(key@, v)]
                + rest.drop_first()));
            return ;
        }
        if text::text_less(key, entries[i].0.as_str()) {
            entries.insert(i, (key.to_owned(), value));
            assert(held_entries(entries@) =~= all.take(i as int) + (seq![(key@, v)] + rest));
            return ;
        }
        assert(all.take(i + 1) + json::bind(all.skip(i + 1), key@, v) =~= all.take(i as int) + (
        seq![all[i as int]] + json::bind(all.skip(i + 1), key@, v)));
        i += 1;
    }
    assert(all.skip(i as int) =~= Seq::empty());
    entries.push((key.to_owned(), value));
    assert(held_entries(entries@) =~= all.take(i as int) + seq![(key@, v)]);
}

/// A document as a `serde_json::Value`.
fn value_of(document: &Json) -> (r: serde_json::Value)
    ensures
        held(r) == kept(document@),
    decreases document,
{
    match document {
        Json::Null => value_made(Shape::Null),
        Json::Bool(b) => value_made(Shape::Bool(*b)),
        Json::Number(n) => match number_from_str(n.text.as_str()) {
            Ok(number) => value_made(Shape::Number(number)),
            Err(_) => value_made(Shape::Null),
        },
        Json::Str(s) => value_made(Shape::Str(s.clone())),
        Json::Array(items) => {
            let mut out: Vec<serde_json::Value> = Vec::new();
            let mut i: usize = 0;
            while i < items.len()
                invariant
                    i <= items@.len(),
                    *document == Json::Array(*items),
                    out@.len() == i,
                    forall|k: int| 0 <= k < i ==> held(#[trigger] out@[k]) == kept(items@[k]@),
                decreases items@.len() - i,
            {
                assert(decreases_to!(*document => document->Array_0));
                assert(decreases_to!(*items => items@));
                assert(decreases_to!(items@ => items@[i as int]));
                out.push(value_of(&items[i]));
                i += 1;
            }
            assert(held_items(out@) =~= kept(document@)->Array_0);
            value_made(Shape::Array(out))
        },
        Json::Object(entries) => {
            let ghost all = kept_entries(json::entry_models(entries@));
            let mut out: Vec<(String, serde_json::Value)> = Vec::new();
            let mut i: usize = 0;
            assert(all.take(0) =~= Seq::empty());
            assert(held_entries(out@) =~= Seq::empty());
            while i < entries.len()
                invariant
                    i <= entries@.len(),
                    *document == Json::Object(*entries),
                    all == kept_entries(json::entry_models(entries@)),
                    held_entries(out@) == gathered(all.take(i as int)),
                    json::sorted_keys(held_entries(out@)),
                decreases entries@.len() - i,
            {
                assert(decreases_to!(*document => document->Object_0));
                assert(decreases_to!(*entries => entries@));
                assert(decreases_to!(entries@ => entries@[i as int]));
                assert(decreases_to!(entries@[i as int] => entries@[i as int].1));
                let value: serde_json::Value = value_of(&entries[i].1);
                assert(all.take(i + 1).drop_last() =~= all.take(i as int));
                assert(all.take(i + 1).last() == (entries@[i as int].0@, held(value)));
                proof {
                    json::bind_keeps_order(
                        held_entries(out@),
                        entries@[i as int].0@,
                        held(value),
                    );
                }
                bind_value(&mut out, entries[i].0.as_str(), value);
                i += 1;
            }
            assert(all.take(i as int) =~= all);
            value_made(Shape::Object(out))
        },
    }
}

/// The document that a JSON text holds, if it is one.
pub fn parse_json(text: &str) -> (r: Option<Json>)
    ensures
        json::opt_model(r) == parsed(text@),
        r matches Some(document) ==> document@.wf() && numbers_hold(document@),
{
    match value_from_str(text) {
        Ok(value) => Some(document_of(value)),
        Err(_) => None,
    }
}

/// The document in compact form.
pub fn display_json(document: &Json) -> (r: String)
    ensures
        r@ == displayed(kept(document@)),
{
    let value: serde_json::Value = value_of(document);
    value_display(&value)
}

/// The document in compact form, unless serialising it fails.
pub fn serialize_json(document: &Json) -> (r: Option<String>)
    ensures
        text::opt_text(r) == serialized(kept(document@)),
{
    let value: serde_json::Value = value_of(document);
    match value_serialize(&value) {
        Ok(s) => Some(s),
        Err(_) => None,
    }
}

// ---------------------------------------------------------------------------
// Laws
// ---------------------------------------------------------------------------

/// Binding a key behind all others appends the entry.
proof fn lemma_bind_last(entries: Seq<(Seq<char>, JsonV)>, key: Seq<char>, value: JsonV)
    requires
        forall|i: int| 0 <= i < entries.len() ==> text::lex_less(#[trigger] entries[i].0, key),
    ensures
        json::bind(entries, key, value) == entries.push((key, value)),
    decreases entries.len(),
{
    if entries.len() == 0 {
        assert(json::bind(entries, key, value) =~= entries.push((key, value)));
    } else {
        text::lemma_lex_irreflexive(key);
        if text::lex_less(key, entries[0].0) {
            text::lemma_lex_transitive(key, entries[0].0, key);
        }
        let rest = entries.drop_first();
        assert forall|i: int| 0 <= i < rest.len() implies text::lex_less(
            #[trigger] rest[i].0,
            key,
        ) by {
            assert(rest[i] == entries[i + 1]);
        }
        lemma_bind_last(rest, key, value);
        assert(json::bind(entries, key, value) =~= entries.push((key, value)));
    }
}

/// An object to which entries were added in key order has just these.
proof fn lemma_gathered(entries: Seq<(Seq<char>, JsonV)>)
    requires
        json::sorted_keys(entries),
    ensures
        gathered(entries) == entries,
    decreases entries.len(),
{
    if entries.len() > 0 {
        let rest = entries.drop_last();
        assert forall|i: int, j: int| 0 <= i < j < rest.len() implies text::lex_less(
            #[trigger] rest[i].0,
            #[trigger] rest[j].0,
        ) by {
            assert(rest[i] == entries[i] && rest[j] == entries[j]);
        }
        lemma_gathered(rest);
        assert forall|i: int| 0 <= i < rest.len() implies text::lex_less(
            #[trigger] rest[i].0,
            entries.last().0,
        ) by {
            assert(rest[i].0 == entries[i].0);
            assert(entries.last() == entries[entries.len() - 1]);
        }
        lemma_bind_last(rest, entries.last().0, entries.last().1);
        assert(rest.push(entries.last()) =~= entries);
    } else {
        assert(gathered(entries) =~= entries);
    }
}

/// A document that was read from text is written out as it was read: nothing
/// of it is lost or changed on the way.
pub proof fn read_documents_are_kept(document: JsonV)
    requires
        document.wf(),
        numbers_hold(document),
    ensures
        kept(document) == document,
    decreases document,
{
    match document {
        JsonV::Array(items) => {
            assert forall|i: int| 0 <= i < items.len() implies kept(#[trigger] items[i])
                == items[i] by {
                read_documents_are_kept(items[i]);
            }
            assert(kept(document)->Array_0 =~= items);
        },
        JsonV::Object(entries) => {
            assert forall|i: int| 0 <= i < entries.len() implies kept((#[trigger] entries[i]).1)
                == entries[i].1 by {
                assert(entries[i].1.wf());
                assert(decreases_to!(entries => entries[i]));
                assert(decreases_to!(entries[i] => entries[i].1));
                read_documents_are_kept(entries[i].1);
            }
            assert(kept_entries(entries) =~= entries);
            lemma_gathered(entries);
        },
        _ => {},
    }
}

} // verus!
