//! Bringing a request's input into one form, and turning that form into the messages,
//! tools and tool choice of a chat-completions request.

use crate::config::Settings;
use crate::error::{outcome, Failure, ProxyError};
use crate::codec::encoded_json;
use crate::fold::{lemma_try_map_failure, lemma_try_map_items, lemma_try_map_step, try_map};
use crate::json::{array_of, copy_value, object, object_of, Json, JsonValue, Object};
use crate::probe::Capabilities;
use crate::reasoning::{
    extract_first_reasoning, first_reasoning, flatten_reasoning_value, flattened_at, or_nothing,
    stringified, stringify_json_value,
};
use crate::text::{concat3, same_text};
use vstd::prelude::*;
use vstd::string::*;

verus! {

/// The outcome of a computation of values, over what they stand for.
pub open spec fn values_outcome(r: Result<Vec<JsonValue>, ProxyError>) -> Result<
    Seq<Json>,
    Failure,
> {
    match r {
        Ok(v) => Ok(array_of(v@)),
        Err(e) => Err(e@),
    }
}

/// A request that the proxy refuses.
pub open spec fn refused<T>(message: Seq<char>) -> Result<T, Failure> {
    Err(Failure::BadRequest(message))
}

/// A message in normal form.
pub open spec fn message_item(role: Seq<char>, content: Seq<Json>) -> Json {
    Json::Object(
        map![
            "type"@ => Json::Text("message"@),
            "role"@ => Json::Text(role),
            "content"@ => Json::Array(content),
        ],
    )
}

/// A text part in normal form.
pub open spec fn text_part(text: Seq<char>) -> Json {
    Json::Object(map!["type"@ => Json::Text("input_text"@), "text"@ => Json::Text(text)])
}

/// An image part in normal form.
pub open spec fn image_part(image_url: Json) -> Json {
    Json::Object(map!["type"@ => Json::Text("input_image"@), "image_url"@ => image_url])
}

/// The member under the first of two names that is there.
pub open spec fn either_member(
    m: Map<Seq<char>, Json>,
    first: Seq<char>,
    second: Seq<char>,
) -> Option<Json> {
    match m.get(first) {
        Some(v) => Some(v),
        None => m.get(second),
    }
}

/// The text of a member, where it is a text.
pub open spec fn member_text(member: Option<Json>) -> Option<Seq<char>> {
    match member {
        Some(v) => v.as_str(),
        None => None,
    }
}

/// The message for an image where the upstream takes none.
pub open spec fn image_refusal() -> Seq<char> {
    "image input is disabled for this upstream; enable `upstream_supports_image_input` to forward image_url content"@
}

/// An image in normal form.
pub open spec fn normal_image(
    m: Map<Seq<char>, Json>,
    images: bool,
    missing: Seq<char>,
) -> Result<Json, Failure> {
    if !images {
        refused(image_refusal())
    } else {
        match either_member(m, "image_url"@, "url"@) {
            Some(url) => Ok(image_part(url)),
            None => refused(missing),
        }
    }
}

/// A content part in normal form.
pub open spec fn normal_part(part: Json, images: bool) -> Result<Json, Failure> {
    match part {
        Json::Text(t) => Ok(text_part(t)),
        Json::Object(m) => {
            let kind = match member_text(m.get("type"@)) {
                Some(k) => k,
                None => "input_text"@,
            };
            if kind == "input_text"@ || kind == "output_text"@ || kind == "text"@ {
                match member_text(m.get("text"@)) {
                    Some(t) => Ok(text_part(t)),
                    None => refused("text part is missing text"@),
                }
            } else if kind == "input_image"@ || kind == "image_url"@ {
                normal_image(m, images, "input_image parts need `image_url`"@)
            } else {
                refused("unsupported content part type `"@ + kind + "`"@)
            }
        },
        _ => refused("content parts must be strings or objects"@),
    }
}

/// The rule by which content parts are brought into normal form.
pub open spec fn part_rule(images: bool) -> spec_fn(Json) -> Result<Json, Failure> {
    |part: Json| normal_part(part, images)
}

/// The content of a message in normal form: a list of parts.
pub open spec fn normal_content(content: Json, images: bool) -> Result<Seq<Json>, Failure> {
    match content {
        Json::Text(t) => Ok(seq![text_part(t)]),
        Json::Array(parts) => try_map(parts, part_rule(images)),
        Json::Object(_) => match normal_part(content, images) {
            Ok(p) => Ok(seq![p]),
            Err(e) => Err(e),
        },
        _ => refused("message content must be a string, object, or array"@),
    }
}

/// A message item in normal form.
pub open spec fn normal_message(m: Map<Seq<char>, Json>, images: bool) -> Result<Json, Failure> {
    match member_text(m.get("role"@)) {
        None => refused("input message is missing role"@),
        Some(role) => match m.get("content"@) {
            None => refused("input message is missing content"@),
            Some(content) => match normal_content(content, images) {
                Ok(parts) => Ok(message_item(role, parts)),
                Err(e) => Err(e),
            },
        },
    }
}

/// A reasoning item in normal form.
pub open spec fn reasoning_item(summary: Json, text: Seq<char>) -> Json {
    Json::Object(
        map![
            "type"@ => Json::Text("reasoning"@),
            "summary"@ => summary,
            "text"@ => Json::Text(text),
        ],
    )
}

/// The text of a reasoning item: that of its summary, or that of its other members.
pub open spec fn reasoning_text(m: Map<Seq<char>, Json>) -> Seq<char> {
    match flattened_at(m, "summary"@) {
        Some(t) => t,
        None => match first_reasoning(m) {
            Some(t) => t,
            None => Seq::empty(),
        },
    }
}

/// A function call item in normal form.
pub open spec fn normal_call(m: Map<Seq<char>, Json>) -> Result<Json, Failure> {
    match member_text(m.get("name"@)) {
        None => refused("function_call items need `name`"@),
        Some(name) => match member_text(either_member(m, "call_id"@, "id"@)) {
            None => refused("function_call items need `call_id` or `id`"@),
            Some(call_id) => match m.get("arguments"@) {
                None => refused("function_call items need `arguments`"@),
                Some(arguments) => match stringified(arguments) {
                    Err(e) => Err(e),
                    Ok(text) => Ok(
                        Json::Object(
                            map![
                                "type"@ => Json::Text("function_call"@),
                                "call_id"@ => Json::Text(call_id),
                                "name"@ => Json::Text(name),
                                "arguments"@ => Json::Text(text),
                            ],
                        ),
                    ),
                },
            },
        },
    }
}

/// A function call output item in normal form.
pub open spec fn normal_call_output(m: Map<Seq<char>, Json>) -> Result<Json, Failure> {
    match member_text(either_member(m, "call_id"@, "id"@)) {
        None => refused("function_call_output items need `call_id` or `id`"@),
        Some(call_id) => match either_member(m, "output"@, "content"@) {
            None => refused("function_call_output items need `output`"@),
            Some(output) => match stringified(output) {
                Err(e) => Err(e),
                Ok(text) => Ok(
                    Json::Object(
                        map![
                            "type"@ => Json::Text("function_call_output"@),
                            "call_id"@ => Json::Text(call_id),
                            "output"@ => Json::Text(text),
                        ],
                    ),
                ),
            },
        },
    }
}

/// An input item in normal form.
pub open spec fn normal_item(item: Json, drop_reasoning: bool, images: bool) -> Result<
    Json,
    Failure,
> {
    match item {
        Json::Object(m) => match member_text(m.get("type"@)) {
            None => normal_message(m, images),
            Some(kind) => if kind == "message"@ {
                normal_message(m, images)
            } else if kind == "input_text"@ || kind == "text"@ {
                match member_text(m.get("text"@)) {
                    Some(t) => Ok(message_item("user"@, seq![text_part(t)])),
                    None => refused("text item is missing text"@),
                }
            } else if kind == "reasoning"@ {
                if drop_reasoning {
                    Ok(reasoning_item(Json::Null, Seq::empty()))
                } else {
                    let summary = match m.get("summary"@) {
                        Some(s) => s,
                        None => Json::Null,
                    };
                    Ok(reasoning_item(summary, reasoning_text(m)))
                }
            } else if kind == "function_call"@ {
                normal_call(m)
            } else if kind == "function_call_output"@ {
                normal_call_output(m)
            } else if kind == "input_image"@ || kind == "image_url"@ {
                match normal_image(m, images, "input_image items need `image_url`"@) {
                    Ok(part) => Ok(message_item("user"@, seq![part])),
                    Err(e) => Err(e),
                }
            } else {
                refused("unsupported input item type `"@ + kind + "`"@)
            },
        },
        _ => refused("input array entries must be objects"@),
    }
}

/// The rule by which input items are brought into normal form.
pub open spec fn item_rule(drop_reasoning: bool, images: bool) -> spec_fn(Json) -> Result<
    Json,
    Failure,
> {
    |item: Json| normal_item(item, drop_reasoning, images)
}

/// A request's input in normal form: a list of items.
pub open spec fn normal_input(input: Option<Json>, drop_reasoning: bool, images: bool) -> Result<
    Seq<Json>,
    Failure,
> {
    match input {
        None => refused("input is required"@),
        Some(Json::Text(t)) => Ok(seq![message_item("user"@, seq![text_part(t)])]),
        Some(Json::Array(items)) => try_map(items, item_rule(drop_reasoning, images)),
        Some(Json::Object(m)) => match normal_item(Json::Object(m), drop_reasoning, images) {
            Ok(v) => Ok(seq![v]),
            Err(e) => Err(e),
        },
        _ => refused("input must be a string, object, or array"@),
    }
}

pub fn normalized_message(role: &str, content: Vec<JsonValue>) -> (v: JsonValue)
    ensures
        v@ == message_item(role@, array_of(content@)),
{
    JsonValue::Object(
        object().with("type", JsonValue::text("message")).with("role", JsonValue::text(role)).with(
            "content",
            JsonValue::Array(content),
        ),
    )
}

pub fn normalized_text_part(text: &str) -> (v: JsonValue)
    ensures
        v@ == text_part(text@),
{
    JsonValue::Object(
        object().with("type", JsonValue::text("input_text")).with("text", JsonValue::text(text)),
    )
}

pub fn normalized_image_part(image_url: JsonValue) -> (v: JsonValue)
    ensures
        v@ == image_part(image_url@),
{
    JsonValue::Object(
        object().with("type", JsonValue::text("input_image")).with("image_url", image_url),
    )
}

fn one(v: JsonValue) -> (list: Vec<JsonValue>)
    ensures
        array_of(list@) == seq![v@],
{
    let mut list: Vec<JsonValue> = Vec::new();
    list.push(v);
    assert(array_of(list@) =~= seq![v@]);
    list
}

fn refuse(message: &str) -> (e: ProxyError)
    ensures
        e@ == Failure::BadRequest(message@),
{
    ProxyError::bad_request(message)
}

fn refuse_named(head: &str, name: &str) -> (e: ProxyError)
    ensures
        e@ == Failure::BadRequest(head@ + name@ + "`"@),
{
    ProxyError::BadRequest(concat3(head, name, "`"))
}

fn member_str<'a>(map: &'a Object, key: &str) -> (s: Option<&'a str>)
    ensures
        s.deep_view() == member_text(object_of(*map).get(key@)),
{
    match map.member(key) {
        Some(v) => v.as_str(),
        None => None,
    }
}

fn either<'a>(map: &'a Object, first: &str, second: &str) -> (v: Option<&'a JsonValue>)
    ensures
        v.deep_view() == either_member(object_of(*map), first@, second@),
{
    match map.member(first) {
        Some(v) => Some(v),
        None => map.member(second),
    }
}

fn either_str<'a>(map: &'a Object, first: &str, second: &str) -> (s: Option<&'a str>)
    ensures
        s.deep_view() == member_text(either_member(object_of(*map), first@, second@)),
{
    match either(map, first, second) {
        Some(v) => v.as_str(),
        None => None,
    }
}

fn normalize_image(map: &Object, images: bool, missing: &str) -> (r: Result<JsonValue, ProxyError>)
    ensures
        outcome(r) == normal_image(object_of(*map), images, missing@),
{
    if !images {
        return Err(
            refuse(
                "image input is disabled for this upstream; enable `upstream_supports_image_input` to forward image_url content",
            ),
        );
    }
    match either(map, "image_url", "url") {
        Some(url) => Ok(normalized_image_part(copy_value(url))),
        None => Err(refuse(missing)),
    }
}

/// A content part in normal form.
pub fn normalize_content_part(part: &JsonValue, images: bool) -> (r: Result<JsonValue, ProxyError>)
    ensures
        outcome(r) == normal_part(part@, images),
{
    if let Some(text) = part.as_str() {
        return Ok(normalized_text_part(text));
    }
    let map = match part.as_object() {
        Some(map) => map,
        None => return Err(refuse("content parts must be strings or objects")),
    };
    let kind = match member_str(map, "type") {
        Some(k) => k,
        None => "input_text",
    };
    if same_text(kind, "input_text") || same_text(kind, "output_text") || same_text(kind, "text") {
        match member_str(map, "text") {
            Some(text) => Ok(normalized_text_part(text)),
            None => Err(refuse("text part is missing text")),
        }
    } else if same_text(kind, "input_image") || same_text(kind, "image_url") {
        normalize_image(map, images, "input_image parts need `image_url`")
    } else {
        Err(refuse_named("unsupported content part type `", kind))
    }
}

/// The content of a message in normal form.
pub fn normalize_content_parts(content: &JsonValue, images: bool) -> (r: Result<
    Vec<JsonValue>,
    ProxyError,
>)
    ensures
        values_outcome(r) == normal_content(content@, images),
{
    match content {
        JsonValue::Text(text) => Ok(one(normalized_text_part(text.as_str()))),
        JsonValue::Array(parts) => {
            let ghost all = array_of(parts@);
            let ghost rule = part_rule(images);
            let mut normalized: Vec<JsonValue> = Vec::new();
            let mut i: usize = 0;
            assert(array_of(normalized@) =~= Seq::empty());
            assert(all.take(0) =~= Seq::empty());
            while i < parts.len()
                invariant
                    i <= parts@.len(),
                    all == array_of(parts@),
                    rule == part_rule(images),
                    content@ == Json::Array(all),
                    try_map(all.take(i as int), rule) == Ok::<Seq<Json>, Failure>(
                        array_of(normalized@),
                    ),
                decreases parts@.len() - i,
            {
                proof {
                    lemma_try_map_step(all, i as int, rule);
                    assert(all[i as int] == parts@[i as int]@);
                }
                match normalize_content_part(&parts[i], images) {
                    Ok(part) => {
                        let ghost before = normalized@;
                        normalized.push(part);
                        assert(array_of(normalized@) =~= array_of(before).push(part@));
                    },
                    Err(e) => {
                        proof {
                            lemma_try_map_failure(all, i + 1, rule);
                        }
                        return Err(e);
                    },
                }
                i += 1;
            }
            assert(all.take(i as int) =~= all);
            Ok(normalized)
        },
        JsonValue::Object(_) => match normalize_content_part(content, images) {
            Ok(part) => Ok(one(part)),
            Err(e) => Err(e),
        },
        _ => Err(refuse("message content must be a string, object, or array")),
    }
}

fn normalize_message(map: &Object, images: bool) -> (r: Result<JsonValue, ProxyError>)
    ensures
        outcome(r) == normal_message(object_of(*map), images),
{
    let role = match member_str(map, "role") {
        Some(role) => role,
        None => return Err(refuse("input message is missing role")),
    };
    let content = match map.member("content") {
        Some(content) => content,
        None => return Err(refuse("input message is missing content")),
    };
    match normalize_content_parts(content, images) {
        Ok(parts) => Ok(normalized_message(role, parts)),
        Err(e) => Err(e),
    }
}

fn normalize_reasoning(map: &Object) -> (v: JsonValue)
    ensures
        v@ == reasoning_item(
            match object_of(*map).get("summary"@) {
                Some(s) => s,
                None => Json::Null,
            },
            reasoning_text(object_of(*map)),
        ),
{
    let (summary, found) = match map.member("summary") {
        Some(v) => (copy_value(v), flatten_reasoning_value(v)),
        None => (JsonValue::Null, None),
    };
    let text = match found {
        Some(t) => t,
        None => match extract_first_reasoning(map) {
            Some(t) => t,
            None => String::new(),
        },
    };
    JsonValue::Object(
        object().with("type", JsonValue::text("reasoning")).with("summary", summary).with(
            "text",
            JsonValue::Text(text),
        ),
    )
}

fn normalize_call(map: &Object) -> (r: Result<JsonValue, ProxyError>)
    ensures
        outcome(r) == normal_call(object_of(*map)),
{
    let name = match member_str(map, "name") {
        Some(name) => name,
        None => return Err(refuse("function_call items need `name`")),
    };
    let call_id = match either_str(map, "call_id", "id") {
        Some(call_id) => call_id,
        None => return Err(refuse("function_call items need `call_id` or `id`")),
    };
    let arguments = match map.member("arguments") {
        Some(arguments) => arguments,
        None => return Err(refuse("function_call items need `arguments`")),
    };
    match stringify_json_value(arguments) {
        Ok(text) => Ok(
            JsonValue::Object(
                object().with("type", JsonValue::text("function_call")).with(
                    "call_id",
                    JsonValue::text(call_id),
                ).with("name", JsonValue::text(name)).with("arguments", JsonValue::Text(text)),
            ),
        ),
        Err(e) => Err(e),
    }
}

fn normalize_call_output(map: &Object) -> (r: Result<JsonValue, ProxyError>)
    ensures
        outcome(r) == normal_call_output(object_of(*map)),
{
    let call_id = match either_str(map, "call_id", "id") {
        Some(call_id) => call_id,
        None => return Err(refuse("function_call_output items need `call_id` or `id`")),
    };
    let output = match either(map, "output", "content") {
        Some(output) => output,
        None => return Err(refuse("function_call_output items need `output`")),
    };
    match stringify_json_value(output) {
        Ok(text) => Ok(
            JsonValue::Object(
                object().with("type", JsonValue::text("function_call_output")).with(
                    "call_id",
                    JsonValue::text(call_id),
                ).with("output", JsonValue::Text(text)),
            ),
        ),
        Err(e) => Err(e),
    }
}

/// An input item in normal form.
pub fn normalize_input_item(
    item: &JsonValue,
    settings: &Settings,
    capabilities: &Capabilities,
) -> (r: Result<JsonValue, ProxyError>)
    ensures
        outcome(r) == normal_item(
            item@,
            settings.drop_input_reasoning,
            capabilities.supports_image_input,
        ),
{
    let images = capabilities.supports_image_input;
    let map = match item.as_object() {
        Some(map) => map,
        None => return Err(refuse("input array entries must be objects")),
    };
    let kind = match member_str(map, "type") {
        Some(kind) => kind,
        None => return normalize_message(map, images),
    };
    if same_text(kind, "message") {
        normalize_message(map, images)
    } else if same_text(kind, "input_text") || same_text(kind, "text") {
        match member_str(map, "text") {
            Some(text) => Ok(normalized_message("user", one(normalized_text_part(text)))),
            None => Err(refuse("text item is missing text")),
        }
    } else if same_text(kind, "reasoning") {
        if settings.drop_input_reasoning {
            Ok(
                JsonValue::Object(
                    object().with("type", JsonValue::text("reasoning")).with(
                        "summary",
                        JsonValue::Null,
                    ).with("text", JsonValue::Text(String::new())),
                ),
            )
        } else {
            Ok(normalize_reasoning(map))
        }
    } else if same_text(kind, "function_call") {
        normalize_call(map)
    } else if same_text(kind, "function_call_output") {
        normalize_call_output(map)
    } else if same_text(kind, "input_image") || same_text(kind, "image_url") {
        match normalize_image(map, images, "input_image items need `image_url`") {
            Ok(part) => Ok(normalized_message("user", one(part))),
            Err(e) => Err(e),
        }
    } else {
        Err(refuse_named("unsupported input item type `", kind))
    }
}

/// A request's input in normal form.
pub fn normalize_input_items(
    input: Option<&JsonValue>,
    settings: &Settings,
    capabilities: &Capabilities,
) -> (r: Result<Vec<JsonValue>, ProxyError>)
    ensures
        values_outcome(r) == normal_input(
            input.deep_view(),
            settings.drop_input_reasoning,
            capabilities.supports_image_input,
        ),
{
    let given = match input {
        Some(given) => given,
        None => return Err(refuse("input is required")),
    };
    match given {
        JsonValue::Text(text) => Ok(
            one(normalized_message("user", one(normalized_text_part(text.as_str())))),
        ),
        JsonValue::Array(items) => {
            let ghost all = array_of(items@);
            let ghost rule = item_rule(
                settings.drop_input_reasoning,
                capabilities.supports_image_input,
            );
            let mut normalized: Vec<JsonValue> = Vec::new();
            let mut i: usize = 0;
            assert(array_of(normalized@) =~= Seq::empty());
            assert(all.take(0) =~= Seq::empty());
            while i < items.len()
                invariant
                    i <= items@.len(),
                    all == array_of(items@),
                    rule == item_rule(
                        settings.drop_input_reasoning,
                        capabilities.supports_image_input,
                    ),
                    input.deep_view() == Some(Json::Array(all)),
                    try_map(all.take(i as int), rule) == Ok::<Seq<Json>, Failure>(
                        array_of(normalized@),
                    ),
                decreases items@.len() - i,
            {
                proof {
                    lemma_try_map_step(all, i as int, rule);
                    assert(all[i as int] == items@[i as int]@);
                }
                match normalize_input_item(&items[i], settings, capabilities) {
                    Ok(item) => {
                        let ghost before = normalized@;
                        normalized.push(item);
                        assert(array_of(normalized@) =~= array_of(before).push(item@));
                    },
                    Err(e) => {
                        proof {
                            lemma_try_map_failure(all, i + 1, rule);
                        }
                        return Err(e);
                    },
                }
                i += 1;
            }
            assert(all.take(i as int) =~= all);
            Ok(normalized)
        },
        JsonValue::Object(_) => match normalize_input_item(given, settings, capabilities) {
            Ok(item) => Ok(one(item)),
            Err(e) => Err(e),
        },
        _ => Err(refuse("input must be a string, object, or array")),
    }
}

proof fn lemma_normal_words()
    ensures
        "type"@ != "role"@,
        "type"@ != "content"@,
        "role"@ != "content"@,
        "type"@ != "text"@,
        "type"@ != "image_url"@,
        "type"@ != "summary"@,
        "summary"@ != "text"@,
        "type"@ != "call_id"@,
        "type"@ != "name"@,
        "type"@ != "arguments"@,
        "type"@ != "output"@,
        "call_id"@ != "name"@,
        "call_id"@ != "arguments"@,
        "call_id"@ != "output"@,
        "name"@ != "arguments"@,
        "message"@ != "input_text"@,
        "message"@ != "text"@,
        "message"@ != "reasoning"@,
        "message"@ != "function_call"@,
        "message"@ != "function_call_output"@,
        "message"@ != "input_image"@,
        "message"@ != "image_url"@,
        "input_text"@ != "reasoning"@,
        "input_text"@ != "function_call"@,
        "input_text"@ != "function_call_output"@,
        "input_text"@ != "input_image"@,
        "input_text"@ != "image_url"@,
        "output_text"@ != "input_image"@,
        "output_text"@ != "image_url"@,
        "text"@ != "reasoning"@,
        "text"@ != "function_call"@,
        "text"@ != "function_call_output"@,
        "text"@ != "input_image"@,
        "text"@ != "image_url"@,
        "reasoning"@ != "function_call"@,
        "reasoning"@ != "function_call_output"@,
        "reasoning"@ != "input_image"@,
        "reasoning"@ != "image_url"@,
        "function_call"@ != "function_call_output"@,
        "function_call"@ != "input_image"@,
        "function_call"@ != "image_url"@,
        "function_call_output"@ != "input_image"@,
        "function_call_output"@ != "image_url"@,
{
    reveal_strlit("type");
    reveal_strlit("role");
    reveal_strlit("content");
    reveal_strlit("text");
    reveal_strlit("image_url");
    reveal_strlit("summary");
    reveal_strlit("call_id");
    reveal_strlit("name");
    reveal_strlit("arguments");
    reveal_strlit("output");
    reveal_strlit("message");
    reveal_strlit("input_text");
    reveal_strlit("reasoning");
    reveal_strlit("function_call");
    reveal_strlit("function_call_output");
    reveal_strlit("input_image");
    reveal_strlit("output_text");
    assert("type"@.len() == 4);
    assert("role"@.len() == 4);
    assert("content"@.len() == 7);
    assert("text"@.len() == 4);
    assert("image_url"@.len() == 9);
    assert("summary"@.len() == 7);
    assert("call_id"@.len() == 7);
    assert("name"@.len() == 4);
    assert("arguments"@.len() == 9);
    assert("output"@.len() == 6);
    assert("message"@.len() == 7);
    assert("input_text"@.len() == 10);
    assert("reasoning"@.len() == 9);
    assert("function_call"@.len() == 13);
    assert("function_call_output"@.len() == 20);
    assert("input_image"@.len() == 11);
    assert("output_text"@.len() == 11);
    assert("type"@[0] == 't');
    assert("role"@[0] == 'r');
    assert("type"@[1] == 'y');
    assert("text"@[1] == 'e');
    assert("name"@[0] == 'n');
    assert("text"@[0] == 't');
    assert("content"@[0] == 'c');
    assert("summary"@[0] == 's');
    assert("content"@[1] == 'o');
    assert("call_id"@[1] == 'a');
    assert("message"@[0] == 'm');
    assert("image_url"@[0] == 'i');
    assert("arguments"@[0] == 'a');
    assert("reasoning"@[0] == 'r');
    assert("call_id"@[0] == 'c');
    assert("input_image"@[0] == 'i');
    assert("output_text"@[0] == 'o');
}

/// Whether a part in normal form carries a text.
pub open spec fn carries_text(part: Json, text: Seq<char>) -> bool {
    &&& part.get("type"@) == Some(Json::Text("input_text"@))
    &&& part.get("text"@) == Some(Json::Text(text))
}

/// Whether a part in normal form carries an image.
pub open spec fn carries_image(part: Json, image_url: Json) -> bool {
    &&& part.get("type"@) == Some(Json::Text("input_image"@))
    &&& part.get("image_url"@) == Some(image_url)
}

/// Whether an item in normal form is a message with the given parts.
pub open spec fn is_message_with(item: Json, role: Seq<char>, parts: Seq<Json>) -> bool {
    &&& item.get("type"@) == Some(Json::Text("message"@))
    &&& item.get("role"@) == Some(Json::Text(role))
    &&& item.get("content"@) == Some(Json::Array(parts))
}

/// A list of input items is brought into normal form item by item and in order: none is lost
/// and none is added. One that cannot be brought into it spoils the whole list.
pub proof fn law_input_is_normalized_item_by_item(
    items: Seq<Json>,
    drop_reasoning: bool,
    images: bool,
)
    ensures
        ({
            let all = normal_input(Some(Json::Array(items)), drop_reasoning, images);
            &&& all matches Ok(list) ==> list.len() == items.len() && forall|i: int|
                0 <= i < items.len() ==> normal_item(#[trigger] items[i], drop_reasoning, images)
                    == Ok::<Json, Failure>(list[i])
            &&& all is Ok <==> forall|i: int|
                0 <= i < items.len() ==> normal_item(#[trigger] items[i], drop_reasoning, images)
                    is Ok
        }),
{
    let rule = item_rule(drop_reasoning, images);
    if try_map(items, rule) is Ok {
        lemma_try_map_items(items, rule);
        let list = try_map(items, rule)->Ok_0;
        assert forall|i: int| 0 <= i < items.len() implies normal_item(
            #[trigger] items[i],
            drop_reasoning,
            images,
        ) == Ok::<Json, Failure>(list[i]) by {
            assert(rule(items[i]) == Ok::<Json, Failure>(list[i]));
        }
    } else {
        lemma_spoilt(items, rule);
        let i = choose|i: int| 0 <= i < items.len() && rule(#[trigger] items[i]) is Err;
        assert(normal_item(items[i], drop_reasoning, images) is Err);
    }
}

proof fn lemma_spoilt(items: Seq<Json>, rule: spec_fn(Json) -> Result<Json, Failure>)
    requires
        try_map(items, rule) is Err,
    ensures
        exists|i: int| 0 <= i < items.len() && rule(#[trigger] items[i]) is Err,
    decreases items.len(),
{
    if items.len() > 0 {
        if try_map(items.drop_last(), rule) is Err {
            lemma_spoilt(items.drop_last(), rule);
            let i = choose|i: int|
                0 <= i < items.drop_last().len() && rule(#[trigger] items.drop_last()[i]) is Err;
            assert(rule(items[i]) is Err);
        } else {
            assert(rule(items[items.len() - 1]) is Err);
        }
    }
}

/// Input that is a text is a message of the user with that text; input that is a single item
/// is a list of that item; input that is left out or of another kind is refused.
pub proof fn law_plain_input_is_a_message_of_the_user(
    input: Option<Json>,
    drop_reasoning: bool,
    images: bool,
)
    ensures
        ({
            let all = normal_input(input, drop_reasoning, images);
            &&& input matches Some(Json::Text(t)) ==> {
                &&& all matches Ok(list)
                &&& list.len() == 1
                &&& list[0].get("content"@) matches Some(Json::Array(parts))
                &&& parts.len() == 1
                &&& carries_text(parts[0], t)
                &&& is_message_with(list[0], "user"@, parts)
            }
            &&& input is Some && input->0 is Object ==> match normal_item(
                input->0,
                drop_reasoning,
                images,
            ) {
                Ok(item) => all == Ok::<Seq<Json>, Failure>(seq![item]),
                Err(e) => all == Err::<Seq<Json>, Failure>(e),
            }
            &&& input is None || !(input->0 is Text || input->0 is Array || input->0 is Object)
                ==> all is Err
        }),
{
    lemma_normal_words();
}

/// A message keeps its role and its parts, in order. A content that is one text or one part
/// is a list of that. Without a role or a content it is refused.
pub proof fn law_messages_keep_what_they_say(
    m: Map<Seq<char>, Json>,
    drop_reasoning: bool,
    images: bool,
)
    requires
        Json::Object(m).text_at("type"@) is None || Json::Object(m).text_at("type"@) == Some(
            "message"@,
        ),
    ensures
        ({
            let v = Json::Object(m);
            let normal = normal_item(v, drop_reasoning, images);
            &&& v.text_at("role"@) is None || v.get("content"@) is None ==> normal is Err
            &&& v.text_at("role"@) matches Some(role) ==> {
                &&& v.get("content"@) matches Some(Json::Text(t)) ==> {
                    &&& normal matches Ok(item)
                    &&& item.get("content"@) matches Some(Json::Array(parts))
                    &&& parts.len() == 1
                    &&& carries_text(parts[0], t)
                    &&& is_message_with(item, role, parts)
                }
                &&& v.get("content"@) matches Some(Json::Array(given)) ==> {
                    &&& normal is Ok <==> forall|i: int|
                        0 <= i < given.len() ==> normal_part(#[trigger] given[i], images) is Ok
                    &&& normal matches Ok(item) ==> {
                        &&& item.get("content"@) matches Some(Json::Array(parts))
                        &&& is_message_with(item, role, parts)
                        &&& parts.len() == given.len()
                        &&& forall|i: int|
                            0 <= i < given.len() ==> normal_part(#[trigger] given[i], images)
                                == Ok::<Json, Failure>(parts[i])
                    }
                }
            }
        }),
{
    lemma_normal_words();
    let v = Json::Object(m);
    if let Some(Json::Array(given)) = v.get("content"@) {
        let rule = part_rule(images);
        if try_map(given, rule) is Ok {
            lemma_try_map_items(given, rule);
            let parts = try_map(given, rule)->Ok_0;
            assert forall|i: int| 0 <= i < given.len() implies normal_part(
                #[trigger] given[i],
                images,
            ) == Ok::<Json, Failure>(parts[i]) by {
                assert(rule(given[i]) == Ok::<Json, Failure>(parts[i]));
            }
        } else {
            lemma_spoilt(given, rule);
            let i = choose|i: int| 0 <= i < given.len() && rule(#[trigger] given[i]) is Err;
            assert(normal_part(given[i], images) is Err);
        }
    }
}

/// A part keeps its text or its image. Images are refused where the upstream takes none, and
/// parts of kinds that are not known are always refused.
pub proof fn law_parts_keep_what_they_say(part: Json, images: bool)
    ensures
        ({
            let normal = normal_part(part, images);
            let kind = part.text_at("type"@);
            let is_text = kind is None || kind == Some("input_text"@) || kind == Some(
                "output_text"@,
            ) || kind == Some("text"@);
            let is_image = kind == Some("input_image"@) || kind == Some("image_url"@);
            &&& part matches Json::Text(t) ==> (normal matches Ok(p) && carries_text(p, t))
            &&& part is Object && is_text ==> match part.text_at("text"@) {
                Some(t) => normal matches Ok(p) && carries_text(p, t),
                None => normal is Err,
            }
            &&& part is Object && is_image && !images ==> normal is Err
            &&& part is Object && is_image && images ==> match part.get("image_url"@) {
                Some(url) => normal matches Ok(p) && carries_image(p, url),
                None => match part.get("url"@) {
                    Some(url) => normal matches Ok(p) && carries_image(p, url),
                    None => normal is Err,
                },
            }
            &&& part is Object && !is_text && !is_image ==> normal is Err
            &&& !(part is Text) && !(part is Object) ==> normal is Err
        }),
{
    lemma_normal_words();
}

/// A call keeps its identifier, its name and its arguments: arguments that are a text as they
/// are, other ones as the JSON text written for them. One that lacks any of them is refused.
pub proof fn law_input_calls_keep_their_members(
    v: Json,
    drop_reasoning: bool,
    images: bool,
)
    requires
        v.text_at("type"@) == Some("function_call"@),
    ensures
        ({
            let normal = normal_item(v, drop_reasoning, images);
            let id = if v.get("call_id"@) is Some {
                v.text_at("call_id"@)
            } else {
                v.text_at("id"@)
            };
            &&& id is None || v.text_at("name"@) is None || v.get("arguments"@) is None
                ==> normal is Err
            &&& id is Some && v.text_at("name"@) is Some ==> {
                &&& v.get("arguments"@) matches Some(Json::Text(t)) ==> {
                    &&& normal matches Ok(item)
                    &&& item.get("arguments"@) == Some(Json::Text(t))
                }
                &&& v.get("arguments"@) is Some && !(v.get("arguments"@)->0 is Text) && !(v.get(
                    "arguments"@,
                )->0 is Null) ==> match encoded_json(v.get("arguments"@)->0) {
                    Ok(t) => normal matches Ok(item) && item.get("arguments"@) == Some(
                        Json::Text(t),
                    ),
                    Err(_) => normal is Err,
                }
            }
            &&& normal matches Ok(item) ==> {
                &&& item.get("type"@) == Some(Json::Text("function_call"@))
                &&& item.get("call_id"@) == Some(Json::Text(id->0))
                &&& item.get("name"@) == v.get("name"@)
            }
        }),
{
    lemma_normal_words();
}

/// The output of a call keeps the identifier of the call and what came out: a text as it is,
/// other values as the JSON text written for them. Without either it is refused.
pub proof fn law_outputs_keep_their_members(v: Json, drop_reasoning: bool, images: bool)
    requires
        v.text_at("type"@) == Some("function_call_output"@),
    ensures
        ({
            let normal = normal_item(v, drop_reasoning, images);
            let id = if v.get("call_id"@) is Some {
                v.text_at("call_id"@)
            } else {
                v.text_at("id"@)
            };
            let output = if v.get("output"@) is Some {
                v.get("output"@)
            } else {
                v.get("content"@)
            };
            &&& id is None || output is None ==> normal is Err
            &&& id is Some && output is Some ==> match output->0 {
                Json::Text(t) => normal matches Ok(item) && item.get("output"@) == Some(
                    Json::Text(t),
                ),
                Json::Null => normal matches Ok(item) && item.get("output"@) == Some(
                    Json::Text(Seq::empty()),
                ),
                other => match encoded_json(other) {
                    Ok(t) => normal matches Ok(item) && item.get("output"@) == Some(Json::Text(t)),
                    Err(_) => normal is Err,
                },
            }
            &&& normal matches Ok(item) ==> {
                &&& item.get("type"@) == Some(Json::Text("function_call_output"@))
                &&& item.get("call_id"@) == Some(Json::Text(id->0))
            }
        }),
{
    lemma_normal_words();
}

/// Reasoning keeps its text, which stands in its summary or under one of the names that
/// upstreams use. Where reasoning is dropped it keeps nothing.
pub proof fn law_reasoning_keeps_its_text(v: Json, drop_reasoning: bool, images: bool)
    requires
        v.text_at("type"@) == Some("reasoning"@),
    ensures
        normal_item(v, drop_reasoning, images) matches Ok(item) && {
            let m = v->Object_0;
            &&& item.get("type"@) == Some(Json::Text("reasoning"@))
            &&& drop_reasoning ==> item.get("text"@) == Some(Json::Text(Seq::empty()))
            &&& !drop_reasoning && flattened_at(m, "summary"@) is Some ==> item.get("text"@)
                == Some(Json::Text(flattened_at(m, "summary"@)->0))
            &&& !drop_reasoning && flattened_at(m, "summary"@) is None ==> item.get("text"@)
                == Some(Json::Text(or_nothing(first_reasoning(m))))
            &&& !drop_reasoning && v.get("summary"@) is Some ==> item.get("summary"@) == v.get(
                "summary"@,
            )
        },
{
    lemma_normal_words();
}

/// A text or an image that stands by itself is a message of the user. Items of kinds that are
/// not known, and what is no object, are refused.
pub proof fn law_lone_parts_are_messages_of_the_user(
    v: Json,
    drop_reasoning: bool,
    images: bool,
)
    ensures
        ({
            let normal = normal_item(v, drop_reasoning, images);
            let kind = v.text_at("type"@);
            &&& kind == Some("input_text"@) || kind == Some("text"@) ==> match v.text_at("text"@) {
                Some(t) => {
                    &&& normal matches Ok(item)
                    &&& item.get("content"@) matches Some(Json::Array(parts))
                    &&& parts.len() == 1
                    &&& carries_text(parts[0], t)
                    &&& is_message_with(item, "user"@, parts)
                },
                None => normal is Err,
            }
            &&& kind == Some("input_image"@) || kind == Some("image_url"@) ==> {
                &&& !images ==> normal is Err
                &&& images && v.get("image_url"@) is Some ==> {
                    &&& normal matches Ok(item)
                    &&& item.get("content"@) matches Some(Json::Array(parts))
                    &&& parts.len() == 1
                    &&& carries_image(parts[0], v.get("image_url"@)->0)
                    &&& is_message_with(item, "user"@, parts)
                }
            }
            &&& !(v is Object) ==> normal is Err
            &&& v is Object && kind is Some && kind != Some("message"@) && kind != Some(
                "input_text"@,
            ) && kind != Some("text"@) && kind != Some("reasoning"@) && kind != Some(
                "function_call"@,
            ) && kind != Some("function_call_output"@) && kind != Some("input_image"@) && kind
                != Some("image_url"@) ==> normal is Err
        }),
{
    lemma_normal_words();
}

/// A message whose content is a single part says that part, and a call that is made with
/// nothing is made with an empty text. A lone image is found under either of its names.
pub proof fn law_single_parts_are_said(v: Json, part: Json, drop_reasoning: bool, images: bool)
    ensures
        ({
            let normal = normal_item(v, drop_reasoning, images);
            let kind = v.text_at("type"@);
            &&& (v is Object && (kind is None || kind == Some("message"@)) && v.text_at("role"@)
                is Some && v.get("content"@) == Some(part) && part is Object) ==> {
                &&& normal is Ok <==> normal_part(part, images) is Ok
                &&& normal matches Ok(item) ==> is_message_with(
                    item,
                    v.text_at("role"@)->0,
                    seq![normal_part(part, images)->Ok_0],
                )
            }
            &&& kind == Some("function_call"@) && v.text_at("name"@) is Some && v.text_at(
                "call_id"@,
            ) is Some && v.get("arguments"@) == Some(Json::Null) ==> (normal matches Ok(item)
                && item.get("arguments"@) == Some(Json::Text(Seq::empty())))
            &&& (kind == Some("input_image"@) || kind == Some("image_url"@)) && images && v.get(
                "image_url"@,
            ) is None && v.get("url"@) is Some ==> {
                &&& normal matches Ok(item)
                &&& item.get("content"@) matches Some(Json::Array(parts))
                &&& parts.len() == 1
                &&& carries_image(parts[0], v.get("url"@)->0)
                &&& is_message_with(item, "user"@, parts)
            }
        }),
{
    lemma_normal_words();
}

} // verus!
