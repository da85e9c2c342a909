//! Finding reasoning text in what an upstream or a client sends, and turning values
//! into text.

use crate::codec::{encode, encoded_json};
use crate::error::{outcome, Failure, ProxyError};
use crate::json::{array_of, object_of, Json, JsonValue, Object};
use crate::text::concat;
use vstd::prelude::*;
use vstd::string::*;

verus! {

/// The reasoning text in a value: a text itself, the texts of an array one after the
/// other, or the first text that one of an object's members gives.
pub open spec fn flattened(v: Json) -> Option<Seq<char>>
    decreases v,
{
    match v {
        Json::Text(t) => if t.len() == 0 {
            None
        } else {
            Some(t)
        },
        Json::Array(items) => {
            let all = flattened_items(items);
            if all.len() == 0 {
                None
            } else {
                Some(all)
            }
        },
        Json::Object(m) => {
            let text = if m.contains_key("text"@) {
                flattened(m["text"@])
            } else {
                None
            };
            let content = if m.contains_key("content"@) {
                flattened(m["content"@])
            } else {
                None
            };
            let summary = if m.contains_key("summary"@) {
                flattened(m["summary"@])
            } else {
                None
            };
            let reasoning = if m.contains_key("reasoning_content"@) {
                flattened(m["reasoning_content"@])
            } else {
                None
            };
            if text is Some {
                text
            } else if content is Some {
                content
            } else if summary is Some {
                summary
            } else {
                reasoning
            }
        },
        _ => None,
    }
}

/// The reasoning texts of a sequence of values, one after the other.
pub open spec fn flattened_items(items: Seq<Json>) -> Seq<char>
    decreases items,
{
    if items.len() == 0 {
        Seq::empty()
    } else {
        flattened_items(items.drop_last()) + (match flattened(items.last()) {
            Some(t) => t,
            None => Seq::empty(),
        })
    }
}

/// The reasoning text under one member of an object.
pub open spec fn flattened_at(m: Map<Seq<char>, Json>, key: Seq<char>) -> Option<Seq<char>> {
    match m.get(key) {
        Some(v) => flattened(v),
        None => None,
    }
}

/// The reasoning text of a message: that of the first member, of those that upstreams
/// use, which has one.
pub open spec fn first_reasoning(m: Map<Seq<char>, Json>) -> Option<Seq<char>> {
    if flattened_at(m, "reasoning_content"@) is Some {
        flattened_at(m, "reasoning_content"@)
    } else if flattened_at(m, "reasoning"@) is Some {
        flattened_at(m, "reasoning"@)
    } else if flattened_at(m, "thinking"@) is Some {
        flattened_at(m, "thinking"@)
    } else {
        flattened_at(m, "reasoning_summary"@)
    }
}

/// A reasoning text is never empty.
pub proof fn law_reasoning_is_never_empty(v: Json)
    ensures
        flattened(v) matches Some(t) ==> t.len() > 0,
    decreases v,
{
    match v {
        Json::Object(m) => {
            if m.contains_key("text"@) {
                law_reasoning_is_never_empty(m["text"@]);
            }
            if m.contains_key("content"@) {
                law_reasoning_is_never_empty(m["content"@]);
            }
            if m.contains_key("summary"@) {
                law_reasoning_is_never_empty(m["summary"@]);
            }
            if m.contains_key("reasoning_content"@) {
                law_reasoning_is_never_empty(m["reasoning_content"@]);
            }
        },
        _ => {},
    }
}

/// The reasoning text in a value.
pub fn flatten_reasoning_value(value: &JsonValue) -> (text: Option<String>)
    ensures
        text.deep_view() == flattened(value@),
    decreases value@,
{
    match value {
        JsonValue::Text(t) => if t.as_str().is_empty() {
            None
        } else {
            Some(t.clone())
        },
        JsonValue::Array(items) => {
            let mut joined = String::new();
            let mut i: usize = 0;
            assert(array_of(items@).take(0) =~= Seq::empty());
            while i < items.len()
                invariant
                    i <= items@.len(),
                    value@ == Json::Array(array_of(items@)),
                    joined@ == flattened_items(array_of(items@).take(i as int)),
                decreases items@.len() - i,
            {
                let ghost all = array_of(items@);
                assert(all[i as int] == items@[i as int]@);
                assert(decreases_to!(value@ => value@->Array_0));
                assert(decreases_to!(all => all[i as int]));
                assert(all.take(i + 1).drop_last() =~= all.take(i as int));
                match flatten_reasoning_value(&items[i]) {
                    Some(t) => joined.append(t.as_str()),
                    None => {
                        assert(joined@ + Seq::<char>::empty() =~= joined@);
                    },
                }
                i += 1;
            }
            assert(array_of(items@).take(i as int) =~= array_of(items@));
            if joined.as_str().is_empty() {
                None
            } else {
                Some(joined)
            }
        },
        JsonValue::Object(o) => {
            if let Some(v) = o.member("text") {
                assert(decreases_to!(value@ => v@));
                if let Some(t) = flatten_reasoning_value(v) {
                    return Some(t);
                }
            }
            if let Some(v) = o.member("content") {
                if let Some(t) = flatten_reasoning_value(v) {
                    return Some(t);
                }
            }
            if let Some(v) = o.member("summary") {
                if let Some(t) = flatten_reasoning_value(v) {
                    return Some(t);
                }
            }
            if let Some(v) = o.member("reasoning_content") {
                if let Some(t) = flatten_reasoning_value(v) {
                    return Some(t);
                }
            }
            None
        },
        _ => None,
    }
}

fn flatten_member(map: &Object, key: &str) -> (text: Option<String>)
    ensures
        text.deep_view() == flattened_at(object_of(*map), key@),
{
    match map.member(key) {
        Some(v) => flatten_reasoning_value(v),
        None => None,
    }
}

/// The reasoning text of a message.
pub fn extract_first_reasoning(map: &Object) -> (text: Option<String>)
    ensures
        text.deep_view() == first_reasoning(object_of(*map)),
{
    if let Some(t) = flatten_member(map, "reasoning_content") {
        return Some(t);
    }
    if let Some(t) = flatten_member(map, "reasoning") {
        return Some(t);
    }
    if let Some(t) = flatten_member(map, "thinking") {
        return Some(t);
    }
    flatten_member(map, "reasoning_summary")
}

/// A value as text: a text itself, nothing for null, JSON text for anything else.
pub open spec fn stringified(v: Json) -> Result<Seq<char>, Failure> {
    match v {
        Json::Text(t) => Ok(t),
        Json::Null => Ok(Seq::empty()),
        _ => match encoded_json(v) {
            Ok(s) => Ok(s),
            Err(e) => Err(Failure::Internal("failed to encode JSON value: "@ + e)),
        },
    }
}

/// A value as text.
pub fn stringify_json_value(value: &JsonValue) -> (r: Result<String, ProxyError>)
    ensures
        outcome(r) == stringified(value@),
{
    match value {
        JsonValue::Text(t) => Ok(t.clone()),
        JsonValue::Null => Ok(String::new()),
        _ => match encode(value) {
            Ok(s) => Ok(s),
            Err(e) => Err(
                ProxyError::Internal(concat("failed to encode JSON value: ", e.as_str())),
            ),
        },
    }
}

/// A text, empty where there is none.
pub open spec fn or_nothing(t: Option<Seq<char>>) -> Seq<char> {
    match t {
        Some(t) => t,
        None => Seq::empty(),
    }
}

/// The reasoning in a text is the text.
pub proof fn law_reasoning_text_is_taken_whole(t: Seq<char>)
    ensures
        or_nothing(flattened(Json::Text(t))) == t,
        t.len() > 0 ==> flattened(Json::Text(t)) is Some,
{
    assert(t.len() == 0 ==> t =~= Seq::empty());
}

/// The reasoning in a list is that of its items, one after the other.
pub proof fn law_reasoning_lists_are_joined(a: Seq<Json>, b: Seq<Json>, v: Json)
    ensures
        or_nothing(flattened(Json::Array(a + b))) == or_nothing(flattened(Json::Array(a)))
            + or_nothing(flattened(Json::Array(b))),
        or_nothing(flattened(Json::Array(seq![v]))) == or_nothing(flattened(v)),
{
    lemma_items_join(a, b);
    lemma_items_text(a);
    lemma_items_text(b);
    lemma_items_text(a + b);
    lemma_items_text(seq![v]);
    assert(seq![v].drop_last() =~= Seq::empty());
    assert(flattened_items(seq![v].drop_last()) =~= Seq::empty());
    assert(Seq::<char>::empty() + or_nothing(flattened(v)) =~= or_nothing(flattened(v)));
}

proof fn lemma_items_text(items: Seq<Json>)
    ensures
        or_nothing(flattened(Json::Array(items))) == flattened_items(items),
{
    if flattened_items(items).len() == 0 {
        assert(flattened_items(items) =~= Seq::empty());
    }
}

proof fn lemma_items_join(a: Seq<Json>, b: Seq<Json>)
    ensures
        flattened_items(a + b) == flattened_items(a) + flattened_items(b),
    decreases b.len(),
{
    if b.len() == 0 {
        assert(a + b =~= a);
        assert(flattened_items(a) + Seq::<char>::empty() =~= flattened_items(a));
    } else {
        lemma_items_join(a, b.drop_last());
        assert((a + b).drop_last() =~= a + b.drop_last());
        let t = or_nothing(flattened(b.last()));
        assert(flattened_items(a) + (flattened_items(b.drop_last()) + t) =~= (flattened_items(a)
            + flattened_items(b.drop_last())) + t);
    }
}

/// The reasoning in an object is that of the first of its members `text`, `content`,
/// `summary` and `reasoning_content` that has any.
pub proof fn law_reasoning_members_are_tried_in_order(m: Map<Seq<char>, Json>)
    ensures
        ({
            let found = flattened(Json::Object(m));
            let text = flattened_at(m, "text"@);
            let content = flattened_at(m, "content"@);
            let summary = flattened_at(m, "summary"@);
            let inner = flattened_at(m, "reasoning_content"@);
            &&& text is Some ==> found == text
            &&& text is None && content is Some ==> found == content
            &&& text is None && content is None && summary is Some ==> found == summary
            &&& text is None && content is None && summary is None ==> found == inner
        }),
{
    assert(m.contains_key("text"@) ==> m.get("text"@) == Some(m["text"@]));
    assert(m.contains_key("content"@) ==> m.get("content"@) == Some(m["content"@]));
    assert(m.contains_key("summary"@) ==> m.get("summary"@) == Some(m["summary"@]));
    assert(m.contains_key("reasoning_content"@) ==> m.get("reasoning_content"@) == Some(
        m["reasoning_content"@],
    ));
}

/// What is neither a text, a list nor an object holds no reasoning, and a member that is not
/// there holds none.
pub proof fn law_other_values_hold_no_reasoning(v: Json, m: Map<Seq<char>, Json>, key: Seq<char>)
    ensures
        !(v is Text) && !(v is Array) && !(v is Object) ==> flattened(v) is None,
        m.get(key) is None ==> flattened_at(m, key) is None,
        m.get(key) matches Some(w) ==> flattened_at(m, key) == flattened(w),
{
}

/// The reasoning of a message is found under any of the names that upstreams use, and under
/// the first one that holds a text where several do.
pub proof fn law_reasoning_is_found_under_its_names(m: Map<Seq<char>, Json>)
    ensures
        ({
            let found = first_reasoning(m);
            let v = Json::Object(m);
            let a = v.text_at("reasoning_content"@);
            let b = v.text_at("reasoning"@);
            let c = v.text_at("thinking"@);
            let d = v.text_at("reasoning_summary"@);
            let no_a = v.get("reasoning_content"@) is None;
            let no_b = v.get("reasoning"@) is None;
            let no_c = v.get("thinking"@) is None;
            let no_d = v.get("reasoning_summary"@) is None;
            &&& (a matches Some(t) && t.len() > 0) ==> found == a
            &&& no_a && (b matches Some(t) && t.len() > 0) ==> found == b
            &&& no_a && no_b && (c matches Some(t) && t.len() > 0) ==> found == c
            &&& no_a && no_b && no_c && (d matches Some(t) && t.len() > 0) ==> found == d
            &&& no_a && no_b && no_c && no_d ==> found is None
            &&& flattened_at(m, "reasoning_content"@) is Some ==> found == flattened_at(
                m,
                "reasoning_content"@,
            )
            &&& found is None ==> flattened_at(m, "reasoning"@) is None && flattened_at(
                m,
                "thinking"@,
            ) is None && flattened_at(m, "reasoning_summary"@) is None
        }),
{
}

/// A text stays as it is when it is turned into text, and null becomes nothing. Any other
/// value becomes the JSON text that is written for it.
pub proof fn law_texts_stay_as_they_are(v: Json)
    ensures
        v matches Json::Text(t) ==> stringified(v) == Ok::<Seq<char>, Failure>(t),
        v is Null ==> stringified(v) == Ok::<Seq<char>, Failure>(Seq::empty()),
        !(v is Text) && !(v is Null) ==> match encoded_json(v) {
            Ok(s) => stringified(v) == Ok::<Seq<char>, Failure>(s),
            Err(_) => stringified(v) is Err,
        },
{
}

} // verus!
