//! Which fields of a request the proxy supports.

use crate::json::{array_of, lemma_object, object, object_of, Json, JsonValue, Object};
use crate::order::{in_order, insert_in_order};
use crate::table::{lemma_entries_map, lemma_table_view};
use crate::text::{concat, join, joined, same_text, texts};
use vstd::prelude::*;
use vstd::string::*;

verus! {

/// How the proxy treats a field of a request.
#[derive(Debug, Clone, Copy, PartialEq, Eq, Structural)]
pub enum FieldClass {
    Supported,
    Emulated,
    Unsupported,
}

/// How the proxy treats the field `name`.
pub open spec fn field_class(name: Seq<char>) -> FieldClass {
    if name == "frequency_penalty"@ || name == "input"@ || name == "include"@ || name
        == "instructions"@ || name == "max_output_tokens"@ || name == "metadata"@ || name
        == "model"@ || name == "presence_penalty"@ || name == "previous_response_id"@ || name
        == "response_format"@ || name == "stop"@ || name == "stream"@ || name == "temperature"@
        || name == "text"@ || name == "tool_choice"@ || name == "tools"@ || name
        == "top_logprobs"@ || name == "top_p"@ || name == "truncation"@ || name == "user"@ {
        FieldClass::Supported
    } else if name == "max_tool_calls"@ || name == "parallel_tool_calls"@ || name == "reasoning"@
        || name == "store"@ {
        FieldClass::Emulated
    } else {
        FieldClass::Unsupported
    }
}

/// How the proxy treats the field `name`.
pub fn classify_field(name: &str) -> (class: FieldClass)
    ensures
        class == field_class(name@),
{
    if same_text(name, "frequency_penalty") || same_text(name, "input") || same_text(
        name,
        "include",
    ) || same_text(name, "instructions") || same_text(name, "max_output_tokens") || same_text(
        name,
        "metadata",
    ) || same_text(name, "model") || same_text(name, "presence_penalty") || same_text(
        name,
        "previous_response_id",
    ) || same_text(name, "response_format") || same_text(name, "stop") || same_text(name, "stream")
        || same_text(name, "temperature") || same_text(name, "text") || same_text(
        name,
        "tool_choice",
    ) || same_text(name, "tools") || same_text(name, "top_logprobs") || same_text(name, "top_p")
        || same_text(name, "truncation") || same_text(name, "user") {
        FieldClass::Supported
    } else if same_text(name, "max_tool_calls") || same_text(name, "parallel_tool_calls")
        || same_text(name, "reasoning") || same_text(name, "store") {
        FieldClass::Emulated
    } else {
        FieldClass::Unsupported
    }
}

/// The fields of a request by how the proxy treats them.
#[derive(Debug)]
pub struct ProtocolReport {
    pub supported_fields: Vec<String>,
    pub emulated_fields: Vec<String>,
    pub unsupported_fields: Vec<String>,
}

/// Whether `list` holds, in order and once each, the keys in `keys` that have `class`.
pub open spec fn lists_class(
    list: Seq<Seq<char>>,
    keys: Set<Seq<char>>,
    class: FieldClass,
) -> bool {
    &&& in_order(list)
    &&& list.no_duplicates()
    &&& forall|k: Seq<char>| #[trigger]
        list.contains(k) <==> keys.contains(k) && field_class(k) == class
}

/// A list of texts as JSON.
pub open spec fn text_array(list: Seq<Seq<char>>) -> Json {
    Json::Array(Seq::new(list.len(), |i: int| Json::Text(list[i])))
}

impl ProtocolReport {
    /// Whether some field is not plainly supported.
    pub open spec fn has_notes(self) -> bool {
        self.emulated_fields@.len() > 0 || self.unsupported_fields@.len() > 0
    }

    /// What the response's metadata say about the fields.
    pub open spec fn fragment(self) -> Json {
        let base = map![
            "mode"@ => Json::Text("chat_completions_bridge"@),
            "supported_fields"@ => text_array(texts(self.supported_fields@)),
        ];
        let emulated = if self.emulated_fields@.len() > 0 {
            base.insert("emulated_fields"@, text_array(texts(self.emulated_fields@)))
        } else {
            base
        };
        let all = if self.unsupported_fields@.len() > 0 {
            emulated.insert("unsupported_fields"@, text_array(texts(self.unsupported_fields@)))
        } else {
            emulated
        };
        Json::Object(map!["compatibility"@ => Json::Object(all)])
    }

    pub fn has_compatibility_notes(&self) -> (b: bool)
        ensures
            b == self.has_notes(),
    {
        !(self.emulated_fields.len() == 0 && self.unsupported_fields.len() == 0)
    }

    /// The error for a request with unsupported fields, in strict mode.
    pub fn strict_error(&self) -> (e: Option<String>)
        ensures
            e is None <==> self.unsupported_fields@.len() == 0,
            e matches Some(m) ==> m@ == "Unsupported Responses API fields in strict mode: "@
                + joined(texts(self.unsupported_fields@), ", "@),
    {
        if self.unsupported_fields.len() == 0 {
            None
        } else {
            Some(
                concat(
                    "Unsupported Responses API fields in strict mode: ",
                    join(&self.unsupported_fields, ", ").as_str(),
                ),
            )
        }
    }

    /// What the response's metadata say about the fields.
    pub fn metadata_fragment(&self) -> (v: JsonValue)
        ensures
            v@ == self.fragment(),
    {
        let mut compatibility = object().with(
            "mode",
            JsonValue::text("chat_completions_bridge"),
        ).with("supported_fields", text_values(&self.supported_fields));
        if self.emulated_fields.len() > 0 {
            compatibility.set("emulated_fields", text_values(&self.emulated_fields));
        }
        if self.unsupported_fields.len() > 0 {
            compatibility.set("unsupported_fields", text_values(&self.unsupported_fields));
        }
        JsonValue::Object(object().with("compatibility", JsonValue::Object(compatibility)))
    }
}

/// A list of texts as JSON.
pub fn text_values(list: &Vec<String>) -> (v: JsonValue)
    ensures
        v@ == text_array(texts(list@)),
{
    let mut values: Vec<JsonValue> = Vec::new();
    let mut i: usize = 0;
    while i < list.len()
        invariant
            i <= list@.len(),
            values@.len() == i,
            forall|k: int| 0 <= k < i ==> (#[trigger] values@[k])@ == Json::Text(list@[k]@),
        decreases list@.len() - i,
    {
        values.push(JsonValue::Text(list[i].clone()));
        i += 1;
    }
    assert(array_of(values@) =~= Seq::new(
        texts(list@).len(),
        |k: int| Json::Text(texts(list@)[k]),
    ));
    JsonValue::Array(values)
}

/// The keys of the first `n` entries.
spec fn first_keys(entries: Seq<(String, JsonValue)>, n: int) -> Set<Seq<char>> {
    Set::new(|k: Seq<char>| exists|i: int| 0 <= i < n && (#[trigger] entries[i]).0@ == k)
}

proof fn lemma_insert_listed(
    list: Seq<Seq<char>>,
    at: int,
    key: Seq<char>,
    keys: Set<Seq<char>>,
    class: FieldClass,
)
    requires
        lists_class(list, keys, class),
        0 <= at <= list.len(),
        !keys.contains(key),
        field_class(key) == class,
        in_order(list.insert(at, key)),
    ensures
        lists_class(list.insert(at, key), keys.insert(key), class),
{
    let after = list.insert(at, key);
    assert(!list.contains(key));
    assert forall|i: int, j: int| 0 <= i < after.len() && 0 <= j < after.len() && i
        != j implies after[i] != after[j] by {
        let x = if i < at {
            i
        } else {
            i - 1
        };
        let y = if j < at {
            j
        } else {
            j - 1
        };
        if i != at {
            assert(after[i] == list[x]);
        }
        if j != at {
            assert(after[j] == list[y]);
        }
    }
    assert forall|k: Seq<char>| #[trigger]
        after.contains(k) <==> keys.insert(key).contains(k) && field_class(k) == class by {
        if after.contains(k) && k != key {
            let i = choose|i: int| 0 <= i < after.len() && after[i] == k;
            let x = if i < at {
                i
            } else {
                i - 1
            };
            assert(list[x] == k);
            assert(list.contains(k));
        }
        if list.contains(k) {
            let x = choose|x: int| 0 <= x < list.len() && list[x] == k;
            let i = if x < at {
                x
            } else {
                x + 1
            };
            assert(after[i] == k);
        }
        assert(after[at] == key);
    }
}

proof fn lemma_other_class(
    list: Seq<Seq<char>>,
    key: Seq<char>,
    keys: Set<Seq<char>>,
    class: FieldClass,
)
    requires
        lists_class(list, keys, class),
        field_class(key) != class,
    ensures
        lists_class(list, keys.insert(key), class),
{
    assert forall|k: Seq<char>| #[trigger]
        list.contains(k) <==> keys.insert(key).contains(k) && field_class(k) == class by {}
}

/// Sorts the fields of a request by how the proxy treats them. Each field stands in
/// exactly one list, and each list is in order.
pub fn analyze_protocol(payload: &Object) -> (report: ProtocolReport)
    ensures
        lists_class(
            texts(report.supported_fields@),
            object_of(*payload).dom(),
            FieldClass::Supported,
        ),
        lists_class(
            texts(report.emulated_fields@),
            object_of(*payload).dom(),
            FieldClass::Emulated,
        ),
        lists_class(
            texts(report.unsupported_fields@),
            object_of(*payload).dom(),
            FieldClass::Unsupported,
        ),
{
    let ghost entries = payload.spec_entries();
    payload.keys_are_distinct();
    proof {
        lemma_table_view(*payload);
        lemma_entries_map(entries);
        lemma_object(*payload);
    }
    let mut supported: Vec<String> = Vec::new();
    let mut emulated: Vec<String> = Vec::new();
    let mut unsupported: Vec<String> = Vec::new();
    let mut i: usize = 0;
    while i < payload.len()
        invariant
            i <= entries.len(),
            entries == payload.spec_entries(),
            crate::table::distinct_keys(entries),
            lists_class(
                texts(supported@),
                first_keys(entries, i as int),
                FieldClass::Supported,
            ),
            lists_class(texts(emulated@), first_keys(entries, i as int), FieldClass::Emulated),
            lists_class(
                texts(unsupported@),
                first_keys(entries, i as int),
                FieldClass::Unsupported,
            ),
        decreases entries.len() - i,
    {
        let (key, _) = payload.entry(i);
        let ghost keys = first_keys(entries, i as int);
        assert(!keys.contains(key@));
        assert(first_keys(entries, i + 1) =~= keys.insert(key@)) by {
            assert forall|k: Seq<char>|
                first_keys(entries, i + 1).contains(k) == keys.insert(key@).contains(k) by {
                if k == key@ {
                    assert(entries[i as int].0@ == k);
                }
            }
        }
        match classify_field(key.as_str()) {
            FieldClass::Supported => {
                let ghost before = texts(supported@);
                insert_in_order(&mut supported, key.clone());
                proof {
                    let at = choose|at: int|
                        0 <= at <= before.len() && texts(supported@) == #[trigger] before.insert(
                            at,
                            key@,
                        );
                    lemma_insert_listed(before, at, key@, keys, FieldClass::Supported);
                    lemma_other_class(texts(emulated@), key@, keys, FieldClass::Emulated);
                    lemma_other_class(texts(unsupported@), key@, keys, FieldClass::Unsupported);
                }
            },
            FieldClass::Emulated => {
                let ghost before = texts(emulated@);
                insert_in_order(&mut emulated, key.clone());
                proof {
                    let at = choose|at: int|
                        0 <= at <= before.len() && texts(emulated@) == #[trigger] before.insert(
                            at,
                            key@,
                        );
                    lemma_insert_listed(before, at, key@, keys, FieldClass::Emulated);
                    lemma_other_class(texts(supported@), key@, keys, FieldClass::Supported);
                    lemma_other_class(texts(unsupported@), key@, keys, FieldClass::Unsupported);
                }
            },
            FieldClass::Unsupported => {
                let ghost before = texts(unsupported@);
                insert_in_order(&mut unsupported, key.clone());
                proof {
                    let at = choose|at: int|
                        0 <= at <= before.len() && texts(unsupported@) == #[trigger] before.insert(
                            at,
                            key@,
                        );
                    lemma_insert_listed(before, at, key@, keys, FieldClass::Unsupported);
                    lemma_other_class(texts(supported@), key@, keys, FieldClass::Supported);
                    lemma_other_class(texts(emulated@), key@, keys, FieldClass::Emulated);
                }
            },
        }
        i += 1;
    }
    proof {
        assert(first_keys(entries, i as int) =~= object_of(*payload).dom()) by {
            assert forall|k: Seq<char>|
                first_keys(entries, i as int).contains(k) == object_of(*payload).dom().contains(
                    k,
                ) by {
                if object_of(*payload).dom().contains(k) {
                    assert(crate::table::entries_map(entries).contains_key(k));
                }
            }
        }
    }
    ProtocolReport {
        supported_fields: supported,
        emulated_fields: emulated,
        unsupported_fields: unsupported,
    }
}

/// The names of the fields that have a meaning upstream.
pub open spec fn known_fields() -> Seq<Seq<char>> {
    seq![
        "frequency_penalty"@,
        "input"@,
        "include"@,
        "instructions"@,
        "max_output_tokens"@,
        "metadata"@,
        "model"@,
        "presence_penalty"@,
        "previous_response_id"@,
        "response_format"@,
        "stop"@,
        "stream"@,
        "temperature"@,
        "text"@,
        "tool_choice"@,
        "tools"@,
        "top_logprobs"@,
        "top_p"@,
        "truncation"@,
        "user"@,
    ]
}

/// The names of the fields to which the proxy itself gives a meaning.
pub open spec fn emulated_names() -> Seq<Seq<char>> {
    seq![
        "max_tool_calls"@,
        "parallel_tool_calls"@,
        "reasoning"@,
        "store"@,
    ]
}

/// A field is supported if it has a meaning upstream, emulated if the proxy gives it a
/// meaning, and otherwise not supported.
pub proof fn law_fields_are_treated_by_name(i: int, name: Seq<char>)
    ensures
        0 <= i < known_fields().len() ==> field_class(known_fields()[i]) == FieldClass::Supported,
        0 <= i < emulated_names().len() ==> field_class(emulated_names()[i])
            == FieldClass::Emulated,
        !known_fields().contains(name) && !emulated_names().contains(name) ==> field_class(name)
            == FieldClass::Unsupported,
{
    reveal_strlit("frequency_penalty");
    reveal_strlit("input");
    reveal_strlit("include");
    reveal_strlit("instructions");
    reveal_strlit("max_output_tokens");
    reveal_strlit("metadata");
    reveal_strlit("model");
    reveal_strlit("presence_penalty");
    reveal_strlit("previous_response_id");
    reveal_strlit("response_format");
    reveal_strlit("stop");
    reveal_strlit("stream");
    reveal_strlit("temperature");
    reveal_strlit("text");
    reveal_strlit("tool_choice");
    reveal_strlit("tools");
    reveal_strlit("top_logprobs");
    reveal_strlit("top_p");
    reveal_strlit("truncation");
    reveal_strlit("user");
    reveal_strlit("max_tool_calls");
    reveal_strlit("parallel_tool_calls");
    reveal_strlit("reasoning");
    reveal_strlit("store");
    assert("frequency_penalty"@.len() == 17);
    assert("input"@.len() == 5);
    assert("include"@.len() == 7);
    assert("instructions"@.len() == 12);
    assert("max_output_tokens"@.len() == 17);
    assert("metadata"@.len() == 8);
    assert("model"@.len() == 5);
    assert("presence_penalty"@.len() == 16);
    assert("previous_response_id"@.len() == 20);
    assert("response_format"@.len() == 15);
    assert("stop"@.len() == 4);
    assert("stream"@.len() == 6);
    assert("temperature"@.len() == 11);
    assert("text"@.len() == 4);
    assert("tool_choice"@.len() == 11);
    assert("tools"@.len() == 5);
    assert("top_logprobs"@.len() == 12);
    assert("top_p"@.len() == 5);
    assert("truncation"@.len() == 10);
    assert("user"@.len() == 4);
    assert("max_tool_calls"@.len() == 14);
    assert("parallel_tool_calls"@.len() == 19);
    assert("reasoning"@.len() == 9);
    assert("store"@.len() == 5);
    assert("frequency_penalty"@[0] == 'f');
    assert("max_output_tokens"@[0] == 'm');
    assert("input"@[0] == 'i');
    assert("model"@[0] == 'm');
    assert("tools"@[0] == 't');
    assert("top_p"@[0] == 't');
    assert("store"@[0] == 's');
    assert("instructions"@[0] == 'i');
    assert("top_logprobs"@[0] == 't');
    assert("stop"@[0] == 's');
    assert("text"@[0] == 't');
    assert("user"@[0] == 'u');
    assert("temperature"@[1] == 'e');
    assert("tool_choice"@[1] == 'o');
    assert("tools"@[2] == 'o');
    assert("top_p"@[2] == 'p');
    assert(known_fields()[0] == "frequency_penalty"@);
    assert(known_fields()[1] == "input"@);
    assert(known_fields()[2] == "include"@);
    assert(known_fields()[3] == "instructions"@);
    assert(known_fields()[4] == "max_output_tokens"@);
    assert(known_fields()[5] == "metadata"@);
    assert(known_fields()[6] == "model"@);
    assert(known_fields()[7] == "presence_penalty"@);
    assert(known_fields()[8] == "previous_response_id"@);
    assert(known_fields()[9] == "response_format"@);
    assert(known_fields()[10] == "stop"@);
    assert(known_fields()[11] == "stream"@);
    assert(known_fields()[12] == "temperature"@);
    assert(known_fields()[13] == "text"@);
    assert(known_fields()[14] == "tool_choice"@);
    assert(known_fields()[15] == "tools"@);
    assert(known_fields()[16] == "top_logprobs"@);
    assert(known_fields()[17] == "top_p"@);
    assert(known_fields()[18] == "truncation"@);
    assert(known_fields()[19] == "user"@);
    assert(emulated_names()[0] == "max_tool_calls"@);
    assert(emulated_names()[1] == "parallel_tool_calls"@);
    assert(emulated_names()[2] == "reasoning"@);
    assert(emulated_names()[3] == "store"@);

}

/// A report names the fields that it was made on, under how they are treated; the lists of
/// fields that are not plainly supported are left out where they are empty.
pub proof fn law_reports_name_the_fields(report: ProtocolReport)
    ensures
        report.fragment().get("compatibility"@) matches Some(c) && {
            &&& c.get("mode"@) == Some(Json::Text("chat_completions_bridge"@))
            &&& names_fields(c.get("supported_fields"@), report.supported_fields@)
            &&& report.emulated_fields@.len() > 0 ==> names_fields(
                c.get("emulated_fields"@),
                report.emulated_fields@,
            )
            &&& report.emulated_fields@.len() == 0 ==> c.get("emulated_fields"@) is None
            &&& report.unsupported_fields@.len() > 0 ==> names_fields(
                c.get("unsupported_fields"@),
                report.unsupported_fields@,
            )
            &&& report.unsupported_fields@.len() == 0 ==> c.get("unsupported_fields"@) is None
        },
        report.has_notes() <==> report.emulated_fields@.len() + report.unsupported_fields@.len()
            > 0,
{
    reveal_strlit("compatibility");
    reveal_strlit("mode");
    reveal_strlit("supported_fields");
    reveal_strlit("emulated_fields");
    reveal_strlit("unsupported_fields");
    assert("compatibility"@.len() == 13);
    assert("mode"@.len() == 4);
    assert("supported_fields"@.len() == 16);
    assert("emulated_fields"@.len() == 15);
    assert("unsupported_fields"@.len() == 18);
}

/// Whether a value is the list of these names.
pub open spec fn names_fields(v: Option<Json>, names: Seq<String>) -> bool {
    &&& v matches Some(Json::Array(list))
    &&& list.len() == names.len()
    &&& forall|i: int| 0 <= i < names.len() ==> list[i] == Json::Text((#[trigger] names[i])@)
}

} // verus!
