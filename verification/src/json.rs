//! JSON values: the executable type, its mathematical counterpart and the
//! accessors through which the rest of the library reads and builds values.

use crate::number::{num_of_i64, Num, JsonNumber};
use crate::table::{entries_map, lemma_table_view, Table};
use vstd::prelude::*;
use vstd::string::*;

verus! {

/// A JSON value.
#[derive(Debug, PartialEq)]
pub enum JsonValue {
    Null,
    Bool(bool),
    Num(JsonNumber),
    Text(String),
    Array(Vec<JsonValue>),
    Object(Table<JsonValue>),
}

/// The members of a JSON object.
pub type Object = Table<JsonValue>;

/// What a [`JsonValue`] stands for: an object is a map from names to values.
#[verifier::ext_equal]
pub enum Json {
    Null,
    Bool(bool),
    Num(Num),
    Text(Seq<char>),
    Array(Seq<Json>),
    Object(Map<Seq<char>, Json>),
}

/// The JSON value that an executable value stands for.
pub open spec fn json_of(v: JsonValue) -> Json
    decreases v,
{
    match v {
        JsonValue::Null => Json::Null,
        JsonValue::Bool(b) => Json::Bool(b),
        JsonValue::Num(n) => Json::Num(n@),
        JsonValue::Text(s) => Json::Text(s@),
        JsonValue::Array(items) => Json::Array(array_of(items@)),
        JsonValue::Object(o) => Json::Object(object_of(o)),
    }
}

/// The JSON values of a sequence of executable values.
pub open spec fn array_of(items: Seq<JsonValue>) -> Seq<Json>
    decreases items,
{
    Seq::new(
        items.len(),
        |i: int|
            if 0 <= i < items.len() {
                json_of(items[i])
            } else {
                Json::Null
            },
    )
}

/// The members of an executable object.
pub closed spec fn object_of(o: Object) -> Map<Seq<char>, Json>
    decreases o,
{
    members_of(o.entries@)
}

spec fn members_of(entries: Seq<(String, JsonValue)>) -> Map<Seq<char>, Json>
    decreases entries,
{
    if entries.len() == 0 {
        Map::empty()
    } else {
        members_of(entries.drop_last()).insert(
            entries.last().0@,
            json_of(entries[entries.len() - 1].1),
        )
    }
}

impl View for JsonValue {
    type V = Json;

    open spec fn view(&self) -> Json {
        json_of(*self)
    }
}

impl DeepView for JsonValue {
    type V = Json;

    open spec fn deep_view(&self) -> Json {
        json_of(*self)
    }
}

impl Json {
    /// The member `key` of an object.
    pub open spec fn get(self, key: Seq<char>) -> Option<Json> {
        match self {
            Json::Object(m) => m.get(key),
            _ => None,
        }
    }

    /// The characters of a string.
    pub open spec fn as_str(self) -> Option<Seq<char>> {
        match self {
            Json::Text(s) => Some(s),
            _ => None,
        }
    }

    /// The items of an array.
    pub open spec fn as_array(self) -> Option<Seq<Json>> {
        match self {
            Json::Array(items) => Some(items),
            _ => None,
        }
    }

    /// The members of an object.
    pub open spec fn as_object(self) -> Option<Map<Seq<char>, Json>> {
        match self {
            Json::Object(m) => Some(m),
            _ => None,
        }
    }

    /// A boolean.
    pub open spec fn as_bool(self) -> Option<bool> {
        match self {
            Json::Bool(b) => Some(b),
            _ => None,
        }
    }

    /// A non-negative integer.
    pub open spec fn as_u64(self) -> Option<u64> {
        match self {
            Json::Num(n) => n.as_u64(),
            _ => None,
        }
    }

    /// An integer that fits `i64`.
    pub open spec fn as_i64(self) -> Option<i64> {
        match self {
            Json::Num(n) => n.as_i64(),
            _ => None,
        }
    }

    /// The text under `key`, where there is one.
    pub open spec fn text_at(self, key: Seq<char>) -> Option<Seq<char>> {
        match self.get(key) {
            Some(v) => v.as_str(),
            None => None,
        }
    }
}

/// The members of an object and the map of its entries agree key by key.
proof fn lemma_members(entries: Seq<(String, JsonValue)>)
    ensures
        members_of(entries).dom() == entries_map(entries).dom(),
        forall|k: Seq<char>| #[trigger]
            members_of(entries).contains_key(k) ==> members_of(entries)[k] == json_of(
                entries_map(entries)[k],
            ),
    decreases entries.len(),
{
    if entries.len() > 0 {
        lemma_members(entries.drop_last());
    }
    assert(members_of(entries).dom() =~= entries_map(entries).dom());
}

/// An object's members are the values of its table.
pub proof fn lemma_object(o: Object)
    ensures
        object_of(o).dom() == o@.dom(),
        forall|k: Seq<char>| #[trigger]
            object_of(o).contains_key(k) ==> object_of(o)[k] == json_of(o@[k]),
{
    lemma_table_view(o);
    lemma_members(o.entries@);
}

impl JsonValue {
    /// A string value.
    pub fn text(s: &str) -> (v: JsonValue)
        ensures
            v@ == Json::Text(s@),
    {
        JsonValue::Text(s.to_owned())
    }

    /// A non-negative integer value.
    pub fn number(n: u64) -> (v: JsonValue)
        ensures
            v@ == Json::Num(Num::Unsigned(n)),
    {
        JsonValue::Num(JsonNumber::Unsigned(n))
    }

    /// An integer value.
    pub fn integer(n: i64) -> (v: JsonValue)
        ensures
            v@ == Json::Num(num_of_i64(n)),
    {
        JsonValue::Num(JsonNumber::from_i64(n))
    }

    /// The empty array.
    pub fn empty_array() -> (v: JsonValue)
        ensures
            v@ == Json::Array(Seq::empty()),
    {
        let items: Vec<JsonValue> = Vec::new();
        assert(array_of(items@) =~= Seq::empty());
        JsonValue::Array(items)
    }

    /// The array of one value.
    pub fn singleton(item: JsonValue) -> (v: JsonValue)
        ensures
            v@ == Json::Array(seq![item@]),
    {
        let mut items: Vec<JsonValue> = Vec::new();
        items.push(item);
        assert(array_of(items@) =~= seq![item@]);
        JsonValue::Array(items)
    }

    /// The member `key` of an object.
    pub fn get(&self, key: &str) -> (member: Option<&JsonValue>)
        ensures
            member.deep_view() == self@.get(key@),
    {
        match self {
            JsonValue::Object(o) => o.member(key),
            _ => None,
        }
    }

    pub fn as_str(&self) -> (s: Option<&str>)
        ensures
            s.deep_view() == self@.as_str(),
    {
        match self {
            JsonValue::Text(s) => Some(s.as_str()),
            _ => None,
        }
    }

    pub fn as_array(&self) -> (items: Option<&Vec<JsonValue>>)
        ensures
            match items {
                Some(items) => self@.as_array() == Some(array_of(items@)),
                None => self@.as_array() is None,
            },
    {
        match self {
            JsonValue::Array(items) => Some(items),
            _ => None,
        }
    }

    pub fn as_object(&self) -> (members: Option<&Object>)
        ensures
            match members {
                Some(o) => self@.as_object() == Some(object_of(*o)),
                None => self@.as_object() is None,
            },
    {
        match self {
            JsonValue::Object(o) => Some(o),
            _ => None,
        }
    }

    pub fn as_bool(&self) -> (b: Option<bool>)
        ensures
            b == self@.as_bool(),
    {
        match self {
            JsonValue::Bool(b) => Some(*b),
            _ => None,
        }
    }

    pub fn as_u64(&self) -> (n: Option<u64>)
        ensures
            n == self@.as_u64(),
    {
        match self {
            JsonValue::Num(n) => n.as_u64(),
            _ => None,
        }
    }

    pub fn as_i64(&self) -> (n: Option<i64>)
        ensures
            n == self@.as_i64(),
    {
        match self {
            JsonValue::Num(n) => n.as_i64(),
            _ => None,
        }
    }

    /// The text under `key`, where there is one.
    pub fn text_at(&self, key: &str) -> (s: Option<&str>)
        ensures
            s.deep_view() == self@.text_at(key@),
    {
        match self.get(key) {
            Some(v) => v.as_str(),
            None => None,
        }
    }
}

impl Table<JsonValue> {
    /// The member under `key`.
    pub fn member(&self, key: &str) -> (member: Option<&JsonValue>)
        ensures
            member.deep_view() == object_of(*self).get(key@),
    {
        proof {
            lemma_object(*self);
        }
        self.get(key)
    }

    /// Sets the member `key`.
    pub fn set(&mut self, key: &str, value: JsonValue)
        ensures
            object_of(*final(self)) == object_of(*old(self)).insert(key@, value@),
    {
        proof {
            lemma_object(*self);
        }
        self.insert(key.to_owned(), value);
        proof {
            lemma_object(*self);
        }
        assert(object_of(*self) =~= object_of(*old(self)).insert(key@, value@));
    }

    /// This object with the member `key` set.
    pub fn with(self, key: &str, value: JsonValue) -> (o: Object)
        ensures
            object_of(o) == object_of(self).insert(key@, value@),
    {
        let mut o = self;
        o.set(key, value);
        o
    }

    /// Takes out the member `key`.
    pub fn unset(&mut self, key: &str)
        ensures
            object_of(*final(self)) == object_of(*old(self)).remove(key@),
    {
        proof {
            lemma_object(*self);
        }
        self.remove(key);
        proof {
            lemma_object(*self);
        }
        assert(object_of(*self) =~= object_of(*old(self)).remove(key@));
    }
}

/// An object without members.
pub fn object() -> (o: Object)
    ensures
        object_of(o) == Map::<Seq<char>, Json>::empty(),
{
    let o: Object = Table::new();
    proof {
        lemma_object(o);
    }
    assert(object_of(o) =~= Map::empty());
    o
}

/// A copy of a value.
pub fn copy_value(v: &JsonValue) -> (copy: JsonValue)
    ensures
        copy@ == v@,
    decreases v,
{
    match v {
        JsonValue::Null => JsonValue::Null,
        JsonValue::Bool(b) => JsonValue::Bool(*b),
        JsonValue::Num(n) => JsonValue::Num(n.clone()),
        JsonValue::Text(s) => JsonValue::Text(s.clone()),
        JsonValue::Array(items) => JsonValue::Array(copy_values(items)),
        JsonValue::Object(o) => JsonValue::Object(copy_object(o)),
    }
}

/// A copy of a list of values.
pub fn copy_values(items: &Vec<JsonValue>) -> (copies: Vec<JsonValue>)
    ensures
        array_of(copies@) == array_of(items@),
    decreases items,
{
    let mut copies: Vec<JsonValue> = Vec::new();
    let mut i: usize = 0;
    while i < items.len()
        invariant
            i <= items@.len(),
            copies@.len() == i,
            forall|k: int| 0 <= k < i ==> (#[trigger] copies@[k])@ == items@[k]@,
        decreases items@.len() - i,
    {
        copies.push(copy_value(&items[i]));
        i += 1;
    }
    assert(array_of(copies@) =~= array_of(items@));
    copies
}

/// A copy of an object.
pub fn copy_object(o: &Object) -> (copy: Object)
    ensures
        object_of(copy) == object_of(*o),
    decreases o,
{
    let mut copy = object();
    let mut i: usize = 0;
    while i < o.entries.len()
        invariant
            i <= o.entries@.len(),
            object_of(copy) == members_of(o.entries@.take(i as int)),
        decreases o.entries@.len() - i,
    {
        let value = copy_value(&o.entries[i].1);
        copy.set(o.entries[i].0.as_str(), value);
        assert(o.entries@.take(i + 1).drop_last() =~= o.entries@.take(i as int));
        i += 1;
    }
    assert(o.entries@.take(i as int) =~= o.entries@);
    copy
}

impl Clone for JsonValue {
    fn clone(&self) -> (copy: Self)
        ensures
            copy@ == self@,
    {
        copy_value(self)
    }
}

/// A value is read as what it is, and as nothing else; a member is read from an object
/// alone.
pub proof fn law_values_are_read_as_what_they_are(v: Json, key: Seq<char>)
    ensures
        v matches Json::Object(m) ==> {
            &&& m.contains_key(key) ==> v.get(key) == Some(m[key])
            &&& !m.contains_key(key) ==> v.get(key) is None
            &&& m.contains_key(key) && m[key] is Text ==> v.text_at(key) == Some(m[key]->Text_0)
            &&& !m.contains_key(key) || !(m[key] is Text) ==> v.text_at(key) is None
            &&& v.as_object() == Some(m)
        },
        !(v is Object) ==> v.get(key) is None && v.text_at(key) is None && v.as_object() is None,
        v matches Json::Text(t) ==> v.as_str() == Some(t),
        !(v is Text) ==> v.as_str() is None,
        v matches Json::Array(items) ==> v.as_array() == Some(items),
        !(v is Array) ==> v.as_array() is None,
        v matches Json::Bool(b) ==> v.as_bool() == Some(b),
        !(v is Bool) ==> v.as_bool() is None,
        v matches Json::Num(Num::Unsigned(n)) ==> v.as_u64() == Some(n),
        !(v matches Json::Num(Num::Unsigned(_))) ==> v.as_u64() is None,
{
}

} // verus!
