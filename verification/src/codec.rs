//! Reading and writing JSON text, by means of `serde_json`.

use crate::json::{array_of, lemma_object, object, object_of, Json, JsonValue, Object};
use crate::number::{num_of_text, number_text, JsonNumber};
use crate::table::{distinct_keys, entries_map, lemma_entries_finite, lemma_entries_map, lemma_table_view};
use vstd::prelude::*;
use vstd::string::*;

verus! {

/// `serde_json::Value`: a JSON value.
#[verifier::external_type_specification]
#[verifier::external_body]
pub struct ExValue(serde_json::Value);

/// What a `serde_json::Value` holds.
pub uninterp spec fn serde_content(v: serde_json::Value) -> Json;

/// What a sequence of `serde_json::Value` holds.
pub open spec fn serde_items(items: Seq<serde_json::Value>) -> Seq<Json> {
    Seq::new(items.len(), |i: int| serde_content(items[i]))
}

/// What a sequence of object members with distinct names holds.
pub open spec fn serde_members(members: Seq<(String, serde_json::Value)>) -> Map<Seq<char>, Json> {
    Map::new(
        |name: Seq<char>| entries_map(members).contains_key(name),
        |name: Seq<char>| serde_content(entries_map(members)[name]),
    )
}

/// One level of a `serde_json::Value`.
enum Node {
    Null,
    Bool(bool),
    Num(serde_json::Number),
    Text(String),
    Array(Vec<serde_json::Value>),
    Object(Vec<(String, serde_json::Value)>),
}

impl Node {
    /// What a node holds.
    spec fn content(self) -> Json {
        match self {
            Node::Null => Json::Null,
            Node::Bool(b) => Json::Bool(b),
            Node::Num(n) => Json::Num(num_of_text(number_text(n))),
            Node::Text(s) => Json::Text(s@),
            Node::Array(items) => Json::Array(serde_items(items@)),
            Node::Object(members) => Json::Object(serde_members(members@)),
        }
    }
}

/// Tells the variants of `serde_json::Value` apart. The members of an object come as
/// `serde_json::Map` iterates over them, each name once.
#[verifier::external_body]
fn open_value(v: serde_json::Value) -> (node: Node)
    ensures
        node.content() == serde_content(v),
        match node {
            Node::Object(members) => distinct_keys(members@),
            _ => true,
        },
{
    match v {
        serde_json::Value::Null => Node::Null,
        serde_json::Value::Bool(b) => Node::Bool(b),
        serde_json::Value::Number(n) => Node::Num(n),
        serde_json::Value::String(s) => Node::Text(s),
        serde_json::Value::Array(items) => Node::Array(items),
        serde_json::Value::Object(members) => Node::Object(members.into_iter().collect()),
    }
}

/// Builds a `serde_json::Value` from one level. The members of an object, whose names
/// are distinct, are collected into a `serde_json::Map`.
#[verifier::external_body]
fn close_value(node: Node) -> (v: serde_json::Value)
    requires
        match node {
            Node::Object(members) => distinct_keys(members@),
            _ => true,
        },
    ensures
        serde_content(v) == node.content(),
{
    match node {
        Node::Null => serde_json::Value::Null,
        Node::Bool(b) => serde_json::Value::Bool(b),
        Node::Num(n) => serde_json::Value::Number(n),
        Node::Text(s) => serde_json::Value::String(s),
        Node::Array(items) => serde_json::Value::Array(items),
        Node::Object(members) => serde_json::Value::Object(members.into_iter().collect()),
    }
}

/// What `serde_json::from_str` makes of a text: the value, or the text of its error.
pub uninterp spec fn parsed_json(text: Seq<char>) -> Result<Json, Seq<char>>;

/// `serde_json::from_str`, at the type `serde_json::Value`, with the error as its text.
#[verifier::external_body]
fn parse_value(text: &str) -> (parsed: Result<serde_json::Value, String>)
    ensures
        match parsed {
            Ok(v) => parsed_json(text@) == Ok::<Json, Seq<char>>(serde_content(v)),
            Err(e) => parsed_json(text@) == Err::<Json, Seq<char>>(e@),
        },
{
    serde_json::from_str::<serde_json::Value>(text).map_err(|e| e.to_string())
}

/// What `serde_json::to_string` makes of a value: the text, or the text of its error.
pub uninterp spec fn encoded_json(v: Json) -> Result<Seq<char>, Seq<char>>;

/// `serde_json::to_string`, with the error as its text.
#[verifier::external_body]
fn encode_value(v: &serde_json::Value) -> (encoded: Result<String, String>)
    ensures
        match encoded {
            Ok(s) => encoded_json(serde_content(*v)) == Ok::<Seq<char>, Seq<char>>(s@),
            Err(e) => encoded_json(serde_content(*v)) == Err::<Seq<char>, Seq<char>>(e@),
        },
{
    serde_json::to_string(v).map_err(|e| e.to_string())
}

/// What `serde_json::to_string_pretty` makes of a value: the text, or the text of its
/// error.
pub uninterp spec fn pretty_json(v: Json) -> Result<Seq<char>, Seq<char>>;

/// `serde_json::to_string_pretty`, with the error as its text. That reading the text gives
/// the value back is left unsaid: numbers that are no integers are read with the precision
/// that can be had quickly.
#[verifier::external_body]
fn encode_value_pretty(v: &serde_json::Value) -> (encoded: Result<String, String>)
    ensures
        match encoded {
            Ok(s) => pretty_json(serde_content(*v)) == Ok::<Seq<char>, Seq<char>>(s@),
            Err(e) => pretty_json(serde_content(*v)) == Err::<Seq<char>, Seq<char>>(e@),
        },
{
    serde_json::to_string_pretty(v).map_err(|e| e.to_string())
}

/// What `Display` of `serde_json::Value` writes for a value.
pub uninterp spec fn displayed_json(v: Json) -> Seq<char>;

/// `<serde_json::Value as ToString>::to_string`: the compact text of a value.
#[verifier::external_body]
fn display_value(v: &serde_json::Value) -> (s: String)
    ensures
        s@ == displayed_json(serde_content(*v)),
{
    v.to_string()
}

/// Takes over a `serde_json::Value`.
pub fn from_serde(v: serde_json::Value) -> (value: JsonValue)
    ensures
        value@ == serde_content(v),
    decreases serde_content(v),
{
    match open_value(v) {
        Node::Null => JsonValue::Null,
        Node::Bool(b) => JsonValue::Bool(b),
        Node::Num(n) => JsonValue::Num(JsonNumber::from_serde(&n)),
        Node::Text(s) => JsonValue::Text(s),
        Node::Array(items) => {
            let ghost all = items@;
            let mut values: Vec<JsonValue> = Vec::new();
            for item in it: items
                invariant
                    it.seq() == all,
                    values@.len() == it.index(),
                    serde_content(v) == Json::Array(serde_items(all)),
                    forall|k: int|
                        0 <= k < values@.len() ==> (#[trigger] values@[k])@ == serde_content(all[k]),
            {
                proof {
                    let i = it.index();
                    assert(item == all[i]);
                    assert(serde_items(all)[i] == serde_content(item));
                    assert(decreases_to!(serde_content(v) => serde_content(v)->Array_0));
                    assert(decreases_to!(serde_items(all) => serde_items(all)[i]));
                }
                values.push(from_serde(item));
            }
            assert(array_of(values@) =~= serde_items(all));
            JsonValue::Array(values)
        },
        Node::Object(members) => {
            let ghost all = members@;
            let mut o = object();
            proof {
                lemma_entries_map(all);
                assert(entries_map(all.take(0)) =~= Map::empty());
                assert(object_of(o) =~= serde_members(all.take(0)));
            }
            for member in it: members
                invariant
                    it.seq() == all,
                    object_of(o) == serde_members(all.take(it.index() as int)),
                    serde_content(v) == Json::Object(serde_members(all)),
                    forall|i: int|
                        0 <= i < all.len() ==> entries_map(all).contains_key((#[trigger] all[i]).0@)
                            && entries_map(all)[all[i].0@] == all[i].1,
            {
                proof {
                    let i = it.index();
                    assert(member == all[i]);
                    let m = serde_members(all);
                    lemma_entries_finite(all);
                    assert(m.dom() =~= entries_map(all).dom());
                    assert(m.contains_key(all[i].0@));
                    assert(m[all[i].0@] == serde_content(member.1));
                    assert(decreases_to!(serde_content(v) => serde_content(v)->Object_0));
                    assert(decreases_to!(m => m[all[i].0@]));
                    assert(all.take(i + 1).drop_last() =~= all.take(i as int));
                    assert(serde_members(all.take(i + 1)) =~= serde_members(
                        all.take(i as int),
                    ).insert(member.0@, serde_content(member.1)));
                }
                let (name, item) = member;
                let value = from_serde(item);
                o.set(name.as_str(), value);
            }
            assert(all.take(all.len() as int) =~= all);
            JsonValue::Object(o)
        },
    }
}

/// Hands a value over to `serde_json`.
pub fn to_serde(v: &JsonValue) -> (value: serde_json::Value)
    ensures
        serde_content(value) == v@,
    decreases v,
{
    let node = match v {
        JsonValue::Null => Node::Null,
        JsonValue::Bool(b) => Node::Bool(*b),
        JsonValue::Num(n) => Node::Num(n.to_serde()),
        JsonValue::Text(s) => Node::Text(s.clone()),
        JsonValue::Array(items) => Node::Array(items_to_serde(items)),
        JsonValue::Object(o) => Node::Object(members_to_serde(o)),
    };
    close_value(node)
}

fn items_to_serde(items: &Vec<JsonValue>) -> (values: Vec<serde_json::Value>)
    ensures
        serde_items(values@) == array_of(items@),
    decreases items,
{
    let mut values: Vec<serde_json::Value> = Vec::new();
    let mut i: usize = 0;
    while i < items.len()
        invariant
            i <= items@.len(),
            values@.len() == i,
            forall|k: int| 0 <= k < i ==> serde_content(#[trigger] values@[k]) == items@[k]@,
        decreases items@.len() - i,
    {
        values.push(to_serde(&items[i]));
        i += 1;
    }
    assert(serde_items(values@) =~= array_of(items@));
    values
}

fn members_to_serde(o: &Object) -> (members: Vec<(String, serde_json::Value)>)
    ensures
        distinct_keys(members@),
        serde_members(members@) == object_of(*o),
    decreases o,
{
    let mut members: Vec<(String, serde_json::Value)> = Vec::new();
    let mut i: usize = 0;
    while i < o.entries.len()
        invariant
            i <= o.entries@.len(),
            members@.len() == i,
            forall|k: int|
                0 <= k < i ==> (#[trigger] members@[k]).0@ == o.entries@[k].0@ && serde_content(
                    members@[k].1,
                ) == o.entries@[k].1@,
        decreases o.entries@.len() - i,
    {
        let member = (o.entries[i].0.clone(), to_serde(&o.entries[i].1));
        members.push(member);
        i += 1;
    }
    o.keys_are_distinct();
    proof {
        assert forall|a: int, b: int| 0 <= a < b < members@.len() implies (
        #[trigger] members@[a]).0@ != (#[trigger] members@[b]).0@ by {
            assert(o.entries@[a].0@ != o.entries@[b].0@);
        }
        lemma_entries_map(members@);
        lemma_entries_map(o.entries@);
        lemma_table_view(*o);
        lemma_object(*o);
        assert forall|name: Seq<char>|
            #![trigger serde_members(members@).dom().contains(name)]
            #![trigger object_of(*o).dom().contains(name)]
            serde_members(members@).dom().contains(name) == object_of(*o).dom().contains(name) && (
            object_of(*o).dom().contains(name) ==> serde_members(members@)[name] == object_of(
                *o,
            )[name]) by {
            if entries_map(members@).contains_key(name) {
                let k = choose|k: int|
                    0 <= k < members@.len() && (#[trigger] members@[k]).0@ == name;
                assert(o.entries@[k].0@ == name);
            }
            if o@.contains_key(name) {
                assert(entries_map(o.entries@).contains_key(name));
                let k = choose|k: int|
                    0 <= k < o.entries@.len() && (#[trigger] o.entries@[k]).0@ == name;
                assert(members@[k].0@ == name);
            }
        }
        assert(serde_members(members@) =~= object_of(*o));
    }
    members
}

/// Reads a JSON text.
pub fn parse(text: &str) -> (parsed: Result<JsonValue, String>)
    ensures
        match parsed {
            Ok(v) => parsed_json(text@) == Ok::<Json, Seq<char>>(v@),
            Err(e) => parsed_json(text@) == Err::<Json, Seq<char>>(e@),
        },
{
    match parse_value(text) {
        Ok(v) => Ok(from_serde(v)),
        Err(e) => Err(e),
    }
}

/// Writes a value as JSON text.
pub fn encode(v: &JsonValue) -> (encoded: Result<String, String>)
    ensures
        match encoded {
            Ok(s) => encoded_json(v@) == Ok::<Seq<char>, Seq<char>>(s@),
            Err(e) => encoded_json(v@) == Err::<Seq<char>, Seq<char>>(e@),
        },
{
    encode_value(&to_serde(v))
}

/// Writes a value as JSON text in indented lines.
pub fn encode_pretty(v: &JsonValue) -> (encoded: Result<String, String>)
    ensures
        match encoded {
            Ok(s) => pretty_json(v@) == Ok::<Seq<char>, Seq<char>>(s@),
            Err(e) => pretty_json(v@) == Err::<Seq<char>, Seq<char>>(e@),
        },
{
    encode_value_pretty(&to_serde(v))
}

/// Shows a value as JSON text.
pub fn display(v: &JsonValue) -> (s: String)
    ensures
        s@ == displayed_json(v@),
{
    display_value(&to_serde(v))
}

} // verus!
