//! The messages of a chat-completions request, built from normalized input items.

use crate::config::Settings;
use crate::error::{Failure, ProxyError};
use crate::fold::{lemma_try_fold_failure, lemma_try_fold_step, try_fold};
use crate::json::{
    array_of, copy_value, copy_values, object, object_of, Json, JsonValue, Object,
};
use crate::normalize::{member_text, refused, values_outcome};
use crate::probe::Capabilities;
use crate::text::{concat3, same_text};
use vstd::prelude::*;
use vstd::string::*;

verus! {

/// A conversation under construction: the messages so far, the calls of the assistant
/// message that comes next, and the reasoning that belongs to it.
#[verifier::ext_equal]
pub struct Conversation {
    pub messages: Seq<Json>,
    pub calls: Seq<Json>,
    pub reasoning: Seq<char>,
}

/// A message of the upstream request.
pub open spec fn chat_message(role: Seq<char>, content: Json) -> Json {
    Json::Object(map!["role"@ => Json::Text(role), "content"@ => content])
}

/// An assistant message that calls tools.
pub open spec fn calling_message(calls: Seq<Json>) -> Json {
    Json::Object(
        map![
            "role"@ => Json::Text("assistant"@),
            "content"@ => Json::Null,
            "tool_calls"@ => Json::Array(calls),
        ],
    )
}

/// A member added to an object.
pub open spec fn with_member(v: Json, name: Seq<char>, member: Json) -> Json {
    match v {
        Json::Object(m) => Json::Object(m.insert(name, member)),
        _ => v,
    }
}

/// The conversation once the pending calls have become an assistant message. Reasoning
/// goes along where the upstream takes it; without calls it is dropped.
pub open spec fn flushed(c: Conversation, keep_reasoning: bool) -> Conversation {
    if c.calls.len() == 0 {
        Conversation { reasoning: Seq::empty(), ..c }
    } else {
        let bare = calling_message(c.calls);
        let message = if keep_reasoning && c.reasoning.len() > 0 {
            with_member(bare, "reasoning_content"@, Json::Text(c.reasoning))
        } else {
            bare
        };
        Conversation {
            messages: c.messages.push(message),
            calls: Seq::empty(),
            reasoning: if keep_reasoning {
                Seq::empty()
            } else {
                c.reasoning
            },
        }
    }
}

/// The text of a part, empty where it has none.
pub open spec fn part_text(part: Json) -> Seq<char> {
    match part.text_at("text"@) {
        Some(t) => t,
        None => Seq::empty(),
    }
}

/// Whether a part is a text part.
pub open spec fn is_text_part(part: Json) -> bool {
    part.text_at("type"@) == Some("input_text"@)
}

/// A content part as the upstream takes it.
pub open spec fn upstream_part(part: Json) -> Json {
    if part.text_at("type"@) == Some("input_image"@) {
        let image_url = match part.get("image_url"@) {
            Some(url) => url,
            None => Json::Object(map!["url"@ => Json::Text(""@)]),
        };
        Json::Object(map!["type"@ => Json::Text("image_url"@), "image_url"@ => image_url])
    } else {
        Json::Object(map!["type"@ => Json::Text("text"@), "text"@ => Json::Text(part_text(part))])
    }
}

/// The content of a message as the upstream takes it: a plain text where there is one
/// text part alone, a list of parts otherwise.
pub open spec fn upstream_content(parts: Seq<Json>) -> Json {
    if parts.len() == 1 && is_text_part(parts[0]) {
        Json::Text(part_text(parts[0]))
    } else {
        Json::Array(Seq::new(parts.len(), |i: int| upstream_part(parts[i])))
    }
}

/// The upstream's name for a role.
pub open spec fn upstream_role(role: Seq<char>) -> Option<Seq<char>> {
    if role == "developer"@ || role == "system"@ {
        Some("system"@)
    } else if role == "user"@ {
        Some("user"@)
    } else if role == "assistant"@ {
        Some("assistant"@)
    } else {
        None
    }
}

/// A tool call of an assistant message.
pub open spec fn call_entry(id: Json, name: Json, arguments: Json) -> Json {
    Json::Object(
        map![
            "id"@ => id,
            "type"@ => Json::Text("function"@),
            "function"@ => Json::Object(map!["name"@ => name, "arguments"@ => arguments]),
        ],
    )
}

/// A message with the output of a tool.
pub open spec fn tool_message(call_id: Json, content: Json) -> Json {
    Json::Object(
        map![
            "role"@ => Json::Text("tool"@),
            "tool_call_id"@ => call_id,
            "content"@ => content,
        ],
    )
}

/// The kind of a normalized item.
pub open spec fn item_kind(m: Map<Seq<char>, Json>) -> Seq<char> {
    match member_text(m.get("type"@)) {
        Some(k) => k,
        None => "message"@,
    }
}

/// Whether an item has the members that its kind is read by.
pub open spec fn has_call_members(item: Json) -> bool {
    match item {
        Json::Object(m) => {
            &&& item_kind(m) == "function_call"@ ==> m.contains_key("call_id"@) && m.contains_key(
                "name"@,
            ) && m.contains_key("arguments"@)
            &&& item_kind(m) == "function_call_output"@ ==> m.contains_key("call_id"@)
                && m.contains_key("output"@)
        },
        _ => true,
    }
}

/// How the items are turned into messages.
pub struct ChatRules {
    pub drop_reasoning: bool,
    pub drop_tools: bool,
    pub keep_reasoning: bool,
}

/// The conversation after a message item.
pub open spec fn after_message(
    c: Conversation,
    m: Map<Seq<char>, Json>,
    rules: ChatRules,
) -> Result<Conversation, Failure> {
    let ready = flushed(c, rules.keep_reasoning);
    match member_text(m.get("role"@)) {
        None => refused("message item is missing role"@),
        Some(role) => match m.get("content"@) {
            Some(Json::Array(parts)) => match upstream_role(role) {
                None => refused("unsupported input role `"@ + role + "`"@),
                Some(r) => Ok(
                    Conversation {
                        messages: ready.messages.push(chat_message(r, upstream_content(parts))),
                        ..ready
                    },
                ),
            },
            _ => refused("message item is missing content"@),
        },
    }
}

/// The conversation after one more item.
pub open spec fn after_item(c: Conversation, item: Json, rules: ChatRules) -> Result<
    Conversation,
    Failure,
> {
    match item {
        Json::Object(m) => {
            let kind = item_kind(m);
            if kind == "message"@ {
                after_message(c, m, rules)
            } else if kind == "reasoning"@ {
                if rules.drop_reasoning {
                    Ok(c)
                } else {
                    let text = match member_text(m.get("text"@)) {
                        Some(t) => t,
                        None => Seq::empty(),
                    };
                    Ok(Conversation { reasoning: c.reasoning + text, ..c })
                }
            } else if kind == "function_call"@ {
                if rules.drop_tools {
                    Ok(c)
                } else {
                    let call = call_entry(m["call_id"@], m["name"@], m["arguments"@]);
                    Ok(Conversation { calls: c.calls.push(call), ..c })
                }
            } else if kind == "function_call_output"@ {
                if rules.drop_tools {
                    Ok(c)
                } else {
                    let ready = flushed(c, rules.keep_reasoning);
                    let message = tool_message(m["call_id"@], m["output"@]);
                    Ok(Conversation { messages: ready.messages.push(message), ..ready })
                }
            } else {
                refused("unsupported normalized input item type `"@ + kind + "`"@)
            }
        },
        _ => refused("normalized input items must be objects"@),
    }
}

/// The rule by which a conversation takes items.
pub open spec fn chat_rule(rules: ChatRules) -> spec_fn(Conversation, Json) -> Result<
    Conversation,
    Failure,
> {
    |c: Conversation, item: Json| after_item(c, item, rules)
}

/// The conversation before the first item: what was said before, and the instructions.
pub open spec fn opening(previous: Seq<Json>, instructions: Option<Seq<char>>) -> Conversation {
    Conversation {
        messages: match instructions {
            Some(text) => previous.push(chat_message("system"@, Json::Text(text))),
            None => previous,
        },
        calls: Seq::empty(),
        reasoning: Seq::empty(),
    }
}

/// The messages of an upstream request.
pub open spec fn chat_messages(
    previous: Seq<Json>,
    items: Seq<Json>,
    instructions: Option<Seq<char>>,
    rules: ChatRules,
) -> Result<Seq<Json>, Failure> {
    match try_fold(opening(previous, instructions), items, chat_rule(rules)) {
        Err(e) => Err(e),
        Ok(c) => {
            let messages = flushed(c, rules.keep_reasoning).messages;
            if messages.len() == 0 {
                refused("input produced no chat messages"@)
            } else {
                Ok(messages)
            }
        },
    }
}

/// The rules that settings and capabilities give.
pub open spec fn rules_of(settings: Settings, capabilities: Capabilities) -> ChatRules {
    ChatRules {
        drop_reasoning: settings.drop_input_reasoning,
        drop_tools: settings.drop_tools,
        keep_reasoning: capabilities.supports_reasoning_content,
    }
}

fn chat_value(role: &str, content: JsonValue) -> (v: JsonValue)
    ensures
        v@ == chat_message(role@, content@),
{
    JsonValue::Object(object().with("role", JsonValue::text(role)).with("content", content))
}

/// A tool call of an assistant message.
pub fn call_entry_value(id: JsonValue, name: JsonValue, arguments: JsonValue) -> (v: JsonValue)
    ensures
        v@ == call_entry(id@, name@, arguments@),
{
    let function = object().with("name", name).with("arguments", arguments);
    JsonValue::Object(
        object().with("id", id).with("type", JsonValue::text("function")).with(
            "function",
            JsonValue::Object(function),
        ),
    )
}

/// A message with the output of a tool.
pub fn tool_message_value(call_id: JsonValue, content: JsonValue) -> (v: JsonValue)
    ensures
        v@ == tool_message(call_id@, content@),
{
    JsonValue::Object(
        object().with("role", JsonValue::text("tool")).with("tool_call_id", call_id).with(
            "content",
            content,
        ),
    )
}

fn part_text_of(part: &JsonValue) -> (v: JsonValue)
    ensures
        v@ == Json::Text(part_text(part@)),
{
    match part.text_at("text") {
        Some(t) => JsonValue::text(t),
        None => JsonValue::Text(String::new()),
    }
}

/// The content of a message as the upstream takes it.
pub fn upstream_content_from_parts(parts: &Vec<JsonValue>) -> (v: JsonValue)
    ensures
        v@ == upstream_content(array_of(parts@)),
{
    let ghost all = array_of(parts@);
    if parts.len() == 1 {
        assert(all[0] == parts@[0]@);
        if let Some(kind) = parts[0].text_at("type") {
            if same_text(kind, "input_text") {
                return part_text_of(&parts[0]);
            }
        }
    }
    let mut list: Vec<JsonValue> = Vec::new();
    let mut i: usize = 0;
    while i < parts.len()
        invariant
            i <= parts@.len(),
            all == array_of(parts@),
            list@.len() == i,
            forall|k: int| 0 <= k < i ==> (#[trigger] list@[k])@ == upstream_part(all[k]),
        decreases parts@.len() - i,
    {
        let part = &parts[i];
        assert(all[i as int] == part@);
        let image = match part.text_at("type") {
            Some(kind) => same_text(kind, "input_image"),
            None => false,
        };
        let converted = if image {
            let image_url = match part.get("image_url") {
                Some(url) => copy_value(url),
                None => JsonValue::Object(object().with("url", JsonValue::text(""))),
            };
            JsonValue::Object(
                object().with("type", JsonValue::text("image_url")).with("image_url", image_url),
            )
        } else {
            JsonValue::Object(
                object().with("type", JsonValue::text("text")).with("text", part_text_of(part)),
            )
        };
        list.push(converted);
        i += 1;
    }
    assert(array_of(list@) =~= Seq::new(all.len(), |k: int| upstream_part(all[k])));
    JsonValue::Array(list)
}

/// The conversation that three variables stand for.
spec fn conversation_of(
    messages: Vec<JsonValue>,
    calls: Vec<JsonValue>,
    reasoning: String,
) -> Conversation {
    Conversation {
        messages: array_of(messages@),
        calls: array_of(calls@),
        reasoning: reasoning@,
    }
}

fn flush_pending_tool_calls(
    messages: &mut Vec<JsonValue>,
    calls: &mut Vec<JsonValue>,
    reasoning: &mut String,
    keep_reasoning: bool,
)
    ensures
        conversation_of(*final(messages), *final(calls), *final(reasoning)) == flushed(
            conversation_of(*old(messages), *old(calls), *old(reasoning)),
            keep_reasoning,
        ),
{
    if calls.len() == 0 {
        *reasoning = String::new();
        return;
    }
    let mut taken: Vec<JsonValue> = Vec::new();
    std::mem::swap(&mut taken, calls);
    let mut message = object().with("role", JsonValue::text("assistant")).with(
        "content",
        JsonValue::Null,
    ).with("tool_calls", JsonValue::Array(taken));
    if keep_reasoning {
        let mut text = String::new();
        std::mem::swap(&mut text, reasoning);
        if !text.as_str().is_empty() {
            message.set("reasoning_content", JsonValue::Text(text));
        }
    }
    push_value(messages, JsonValue::Object(message));
    assert(array_of(calls@) =~= Seq::empty());
}

/// Adds a value at the end of a list.
pub fn push_value(list: &mut Vec<JsonValue>, v: JsonValue)
    ensures
        array_of(final(list)@) == array_of(old(list)@).push(v@),
{
    list.push(v);
    assert(array_of(list@) =~= array_of(old(list)@).push(v@));
}

fn member_copy(map: &Object, key: &str) -> (v: JsonValue)
    requires
        object_of(*map).contains_key(key@),
    ensures
        v@ == object_of(*map)[key@],
{
    match map.member(key) {
        Some(v) => copy_value(v),
        None => JsonValue::Null,
    }
}

fn member_str<'a>(map: &'a Object, key: &str) -> (s: Option<&'a str>)
    ensures
        s.deep_view() == member_text(object_of(*map).get(key@)),
{
    match map.member(key) {
        Some(v) => v.as_str(),
        None => None,
    }
}

fn upstream_message(map: &Object) -> (r: Result<JsonValue, ProxyError>)
    ensures
        match r {
            Ok(v) => exists|role: Seq<char>, parts: Seq<Json>|
                member_text(object_of(*map).get("role"@)) == Some(role) && object_of(*map).get(
                    "content"@,
                ) == Some(Json::Array(parts)) && upstream_role(role) is Some && v@
                    == #[trigger] chat_message(upstream_role(role)->0, upstream_content(parts)),
            Err(e) => forall|c: Conversation, rules: ChatRules| #[trigger]
                after_message(c, object_of(*map), rules) == Err::<Conversation, Failure>(e@),
        },
{
    let role = match member_str(map, "role") {
        Some(role) => role,
        None => return Err(ProxyError::bad_request("message item is missing role")),
    };
    let content = match map.member("content") {
        Some(JsonValue::Array(parts)) => parts,
        _ => return Err(ProxyError::bad_request("message item is missing content")),
    };
    let named = if same_text(role, "developer") || same_text(role, "system") {
        "system"
    } else if same_text(role, "user") {
        "user"
    } else if same_text(role, "assistant") {
        "assistant"
    } else {
        return Err(ProxyError::BadRequest(concat3("unsupported input role `", role, "`")));
    };
    let v = chat_value(named, upstream_content_from_parts(content));
    assert(v@ == chat_message(upstream_role(role@)->0, upstream_content(array_of(content@))));
    Ok(v)
}

/// Takes one more item into a conversation.
fn take_item(
    messages: &mut Vec<JsonValue>,
    calls: &mut Vec<JsonValue>,
    reasoning: &mut String,
    item: &JsonValue,
    settings: &Settings,
    capabilities: &Capabilities,
) -> (r: Result<(), ProxyError>)
    requires
        !settings.drop_tools ==> has_call_members(item@),
    ensures
        match r {
            Ok(_) => after_item(
                conversation_of(*old(messages), *old(calls), *old(reasoning)),
                item@,
                rules_of(*settings, *capabilities),
            ) == Ok::<Conversation, Failure>(
                conversation_of(*final(messages), *final(calls), *final(reasoning)),
            ),
            Err(e) => after_item(
                conversation_of(*old(messages), *old(calls), *old(reasoning)),
                item@,
                rules_of(*settings, *capabilities),
            ) == Err::<Conversation, Failure>(e@),
        },
{
    let keep = capabilities.supports_reasoning_content;
    let map = match item.as_object() {
        Some(map) => map,
        None => return Err(ProxyError::bad_request("normalized input items must be objects")),
    };
    let kind = match member_str(map, "type") {
        Some(kind) => kind,
        None => "message",
    };
    if same_text(kind, "message") {
        match upstream_message(map) {
            Ok(message) => {
                flush_pending_tool_calls(messages, calls, reasoning, keep);
                push_value(messages, message);
                Ok(())
            },
            Err(e) => Err(e),
        }
    } else if same_text(kind, "reasoning") {
        if !settings.drop_input_reasoning {
            match member_str(map, "text") {
                Some(text) => {
                    reasoning.append(text);
                },
                None => {
                    assert(reasoning@ + Seq::<char>::empty() =~= reasoning@);
                },
            }
        }
        Ok(())
    } else if same_text(kind, "function_call") {
        if !settings.drop_tools {
            let call = call_entry_value(
                member_copy(map, "call_id"),
                member_copy(map, "name"),
                member_copy(map, "arguments"),
            );
            push_value(calls, call);
        }
        Ok(())
    } else if same_text(kind, "function_call_output") {
        if !settings.drop_tools {
            flush_pending_tool_calls(messages, calls, reasoning, keep);
            let message = tool_message_value(
                member_copy(map, "call_id"),
                member_copy(map, "output"),
            );
            push_value(messages, message);
        }
        Ok(())
    } else {
        Err(
            ProxyError::BadRequest(
                concat3("unsupported normalized input item type `", kind, "`"),
            ),
        )
    }
}

/// Whether every item that is reached has the members that its kind is read by. Items
/// behind one that is refused are not reached.
pub open spec fn reached_calls_are_whole(
    previous: Seq<Json>,
    items: Seq<Json>,
    instructions: Option<Seq<char>>,
    rules: ChatRules,
) -> bool {
    forall|i: int|
        0 <= i < items.len() && try_fold(
            opening(previous, instructions),
            items.take(i),
            chat_rule(rules),
        ) is Ok ==> has_call_members(#[trigger] items[i])
}

/// The messages of an upstream request.
pub fn build_messages(
    previous_messages: &Vec<JsonValue>,
    input_items: &Vec<JsonValue>,
    instructions: Option<&str>,
    settings: &Settings,
    capabilities: &Capabilities,
) -> (r: Result<Vec<JsonValue>, ProxyError>)
    requires
        !settings.drop_tools ==> reached_calls_are_whole(
            array_of(previous_messages@),
            array_of(input_items@),
            instructions.deep_view(),
            rules_of(*settings, *capabilities),
        ),
    ensures
        values_outcome(r) == chat_messages(
            array_of(previous_messages@),
            array_of(input_items@),
            instructions.deep_view(),
            rules_of(*settings, *capabilities),
        ),
{
    let ghost rules = rules_of(*settings, *capabilities);
    let ghost rule = chat_rule(rules);
    let ghost items = array_of(input_items@);
    let mut messages = copy_values(previous_messages);
    if let Some(text) = instructions {
        push_value(&mut messages, chat_value("system", JsonValue::text(text)));
    }
    let mut calls: Vec<JsonValue> = Vec::new();
    let mut reasoning = String::new();
    let ghost start = opening(array_of(previous_messages@), instructions.deep_view());
    assert(array_of(calls@) =~= Seq::empty());
    assert(items.take(0) =~= Seq::empty());
    let mut i: usize = 0;
    while i < input_items.len()
        invariant
            i <= input_items@.len(),
            items == array_of(input_items@),
            rules == rules_of(*settings, *capabilities),
            rule == chat_rule(rules),
            start == opening(array_of(previous_messages@), instructions.deep_view()),
            !settings.drop_tools ==> reached_calls_are_whole(
                array_of(previous_messages@),
                items,
                instructions.deep_view(),
                rules,
            ),
            try_fold(start, items.take(i as int), rule) == Ok::<Conversation, Failure>(
                conversation_of(messages, calls, reasoning),
            ),
        decreases input_items@.len() - i,
    {
        proof {
            lemma_try_fold_step(start, items, i as int, rule);
            assert(items[i as int] == input_items@[i as int]@);
        }
        match take_item(
            &mut messages,
            &mut calls,
            &mut reasoning,
            &input_items[i],
            settings,
            capabilities,
        ) {
            Ok(_) => {},
            Err(e) => {
                proof {
                    lemma_try_fold_failure(start, items, i + 1, rule);
                }
                return Err(e);
            },
        }
        i += 1;
    }
    assert(items.take(i as int) =~= items);
    flush_pending_tool_calls(
        &mut messages,
        &mut calls,
        &mut reasoning,
        capabilities.supports_reasoning_content,
    );
    if messages.len() == 0 {
        return Err(ProxyError::bad_request("input produced no chat messages"));
    }
    Ok(messages)
}

/// What was said before and the instructions stand, unchanged and in order, in front of
/// the messages that the input gives.
pub proof fn law_history_comes_first(
    previous: Seq<Json>,
    items: Seq<Json>,
    instructions: Option<Seq<char>>,
    rules: ChatRules,
)
    requires
        chat_messages(previous, items, instructions, rules) is Ok,
    ensures
        opening(previous, instructions).messages.is_prefix_of(
            chat_messages(previous, items, instructions, rules)->Ok_0,
        ),
{
    lemma_messages_grow(opening(previous, instructions), items, rules);
}

proof fn lemma_messages_grow(start: Conversation, items: Seq<Json>, rules: ChatRules)
    ensures
        try_fold(start, items, chat_rule(rules)) matches Ok(c) ==> start.messages.is_prefix_of(
            c.messages,
        ),
    decreases items.len(),
{
    if items.len() > 0 {
        lemma_messages_grow(start, items.drop_last(), rules);
    }
}

/// Whether a message is a tool's output or calls tools.
pub open spec fn concerns_tools(message: Json) -> bool {
    message.text_at("role"@) == Some("tool"@) || message.get("tool_calls"@) is Some
}

/// Where tools are dropped, the input adds no message that concerns tools.
pub proof fn law_dropped_tools_leave_no_trace(
    previous: Seq<Json>,
    items: Seq<Json>,
    instructions: Option<Seq<char>>,
    rules: ChatRules,
)
    requires
        rules.drop_tools,
        chat_messages(previous, items, instructions, rules) is Ok,
    ensures
        forall|i: int|
            previous.len() <= i < chat_messages(previous, items, instructions, rules)->Ok_0.len()
                ==> !concerns_tools(
                #[trigger] chat_messages(previous, items, instructions, rules)->Ok_0[i],
            ),
{
    let start = opening(previous, instructions);
    if instructions is Some {
        lemma_plain_message("system"@, Json::Text(instructions->0));
    }
    lemma_no_tools(start, items, rules, previous.len() as int);
}

proof fn lemma_plain_message(role: Seq<char>, content: Json)
    requires
        role == "system"@ || role == "user"@ || role == "assistant"@,
    ensures
        !concerns_tools(chat_message(role, content)),
{
    reveal_strlit("tool");
    reveal_strlit("system");
    reveal_strlit("user");
    reveal_strlit("assistant");
    reveal_strlit("tool_calls");
    reveal_strlit("role");
    reveal_strlit("content");
    assert("tool"@.len() == 4);
    assert("user"@[0] == 'u' && "tool"@[0] == 't');
    assert("tool_calls"@.len() == 10);
    assert("role"@.len() == 4);
    assert("content"@.len() == 7);
}

proof fn lemma_no_tools(start: Conversation, items: Seq<Json>, rules: ChatRules, from: int)
    requires
        rules.drop_tools,
        0 <= from <= start.messages.len(),
        start.calls.len() == 0,
        forall|i: int|
            from <= i < start.messages.len() ==> !concerns_tools(#[trigger] start.messages[i]),
    ensures
        try_fold(start, items, chat_rule(rules)) matches Ok(c) ==> c.calls.len() == 0 && from
            <= c.messages.len() && forall|i: int|
            from <= i < c.messages.len() ==> !concerns_tools(#[trigger] c.messages[i]),
    decreases items.len(),
{
    if items.len() > 0 {
        lemma_no_tools(start, items.drop_last(), rules, from);
        match items.last() {
            Json::Object(m) => {
                let role = member_text(m.get("role"@));
                if role is Some && upstream_role(role->0) is Some {
                    match m.get("content"@) {
                        Some(Json::Array(parts)) => {
                            lemma_plain_message(upstream_role(role->0)->0, upstream_content(parts));
                        },
                        _ => {},
                    }
                }
            },
            _ => {},
        }
    }
}

/// Whether an item asks for a call.
pub open spec fn is_call(item: Json) -> bool {
    item.text_at("type"@) == Some("function_call"@)
}

/// Whether an item gets a message of its own: a message does, and the output of a call
/// where tools are not dropped.
pub open spec fn is_spoken(item: Json, drop_tools: bool) -> bool {
    let kind = item.text_at("type"@);
    kind is None || kind == Some("message"@) || (!drop_tools && kind == Some(
        "function_call_output"@,
    ))
}

/// The items that ask for calls, in order.
pub open spec fn calls_among(items: Seq<Json>) -> Seq<Json>
    decreases items.len(),
{
    if items.len() == 0 {
        Seq::empty()
    } else if is_call(items.last()) {
        calls_among(items.drop_last()).push(items.last())
    } else {
        calls_among(items.drop_last())
    }
}

/// The items that get messages of their own, in order.
pub open spec fn spoken_among(items: Seq<Json>, drop_tools: bool) -> Seq<Json>
    decreases items.len(),
{
    if items.len() == 0 {
        Seq::empty()
    } else if is_spoken(items.last(), drop_tools) {
        spoken_among(items.drop_last(), drop_tools).push(items.last())
    } else {
        spoken_among(items.drop_last(), drop_tools)
    }
}

/// The items behind the last one that gets a message of its own.
pub open spec fn unspoken_tail(items: Seq<Json>, drop_tools: bool) -> Seq<Json>
    decreases items.len(),
{
    if items.len() == 0 || is_spoken(items.last(), drop_tools) {
        Seq::empty()
    } else {
        unspoken_tail(items.drop_last(), drop_tools).push(items.last())
    }
}

/// The texts of the reasoning items, one after the other.
pub open spec fn thoughts_in(items: Seq<Json>) -> Seq<char>
    decreases items.len(),
{
    if items.len() == 0 {
        Seq::empty()
    } else if items.last().text_at("type"@) == Some("reasoning"@) {
        thoughts_in(items.drop_last()) + (match items.last().text_at("text"@) {
            Some(t) => t,
            None => Seq::empty(),
        })
    } else {
        thoughts_in(items.drop_last())
    }
}

/// The tool calls that messages make, one after the other.
pub open spec fn calls_in(messages: Seq<Json>) -> Seq<Json>
    decreases messages.len(),
{
    if messages.len() == 0 {
        Seq::empty()
    } else {
        calls_in(messages.drop_last()) + (match messages.last().get("tool_calls"@) {
            Some(Json::Array(calls)) => calls,
            _ => Seq::empty(),
        })
    }
}

/// The messages that make no tool calls.
pub open spec fn without_calls(messages: Seq<Json>) -> Seq<Json>
    decreases messages.len(),
{
    if messages.len() == 0 {
        Seq::empty()
    } else if messages.last().get("tool_calls"@) is Some {
        without_calls(messages.drop_last())
    } else {
        without_calls(messages.drop_last()).push(messages.last())
    }
}

/// Whether a tool call is the one that an item asks for.
pub open spec fn call_tells(call: Json, item: Json) -> bool {
    &&& call.get("id"@) == item.get("call_id"@)
    &&& call.get("type"@) == Some(Json::Text("function"@))
    &&& call.get("function"@) matches Some(f) && f.get("name"@) == item.get("name"@) && f.get(
        "arguments"@,
    ) == item.get("arguments"@)
}

/// Whether tool calls are those that items ask for, one by one.
pub open spec fn calls_tell(calls: Seq<Json>, items: Seq<Json>) -> bool {
    &&& calls.len() == items.len()
    &&& forall|i: int| 0 <= i < calls.len() ==> call_tells(#[trigger] calls[i], items[i])
}

/// Whether a content part says what an input part says.
pub open spec fn part_tells(told: Json, part: Json) -> bool {
    if part.text_at("type"@) == Some("input_image"@) {
        &&& told.get("type"@) == Some(Json::Text("image_url"@))
        &&& part.get("image_url"@) is Some ==> told.get("image_url"@) == part.get("image_url"@)
    } else {
        &&& told.get("type"@) == Some(Json::Text("text"@))
        &&& told.get("text"@) == Some(
            Json::Text(
                match part.text_at("text"@) {
                    Some(t) => t,
                    None => Seq::empty(),
                },
            ),
        )
    }
}

/// Whether the content of a message says what the parts of an input message say: a text
/// part alone becomes a plain text.
pub open spec fn content_tells(content: Json, parts: Seq<Json>) -> bool {
    if parts.len() == 1 && parts[0].text_at("type"@) == Some("input_text"@) {
        content == Json::Text(
            match parts[0].text_at("text"@) {
                Some(t) => t,
                None => Seq::empty(),
            },
        )
    } else {
        &&& content matches Json::Array(list)
        &&& list.len() == parts.len()
        &&& forall|i: int| 0 <= i < list.len() ==> part_tells(#[trigger] list[i], parts[i])
    }
}

/// Whether a message is the one that an item gets: the output of a call under the
/// identifier of the call, a message under its role, where developers speak as the system.
pub open spec fn message_tells(message: Json, item: Json) -> bool {
    if item.text_at("type"@) == Some("function_call_output"@) {
        &&& message.get("role"@) == Some(Json::Text("tool"@))
        &&& message.get("tool_call_id"@) == item.get("call_id"@)
        &&& message.get("content"@) == item.get("output"@)
    } else {
        let role = item.text_at("role"@);
        &&& role == Some("developer"@) || role == Some("system"@) ==> message.get("role"@) == Some(
            Json::Text("system"@),
        )
        &&& role == Some("user"@) || role == Some("assistant"@) ==> message.get("role"@)
            == item.get("role"@)
        &&& role == Some("developer"@) || role == Some("system"@) || role == Some("user"@) || role
            == Some("assistant"@)
        &&& item.get("content"@) matches Some(Json::Array(parts))
        &&& message.get("content"@) matches Some(content)
        &&& content_tells(content, parts)
    }
}

/// Whether messages are those that items get, one by one.
pub open spec fn messages_tell(messages: Seq<Json>, items: Seq<Json>) -> bool {
    &&& messages.len() == items.len()
    &&& forall|i: int| 0 <= i < messages.len() ==> message_tells(#[trigger] messages[i], items[i])
}

/// Whether a message does nothing but call tools.
pub open spec fn only_calls(message: Json) -> bool {
    &&& message.get("role"@) == Some(Json::Text("assistant"@))
    &&& message.get("content"@) == Some(Json::Null)
    &&& message.get("tool_calls"@) matches Some(Json::Array(calls))
    &&& calls.len() > 0
}

/// Whether all messages that call tools do nothing else, and none follows another one
/// directly.
pub open spec fn calls_are_gathered(messages: Seq<Json>) -> bool {
    forall|i: int|
        0 <= i < messages.len() && (#[trigger] messages[i]).get("tool_calls"@) is Some ==> {
            &&& only_calls(messages[i])
            &&& i + 1 < messages.len() ==> messages[i + 1].get("tool_calls"@) is None
        }
}

/// The calls that items ask for, where tools are not dropped.
pub open spec fn asked_calls(items: Seq<Json>, drop_tools: bool) -> Seq<Json> {
    if drop_tools {
        Seq::empty()
    } else {
        calls_among(items)
    }
}

/// The reasoning that belongs to the calls that come next, where reasoning is not dropped.
pub open spec fn pending_thoughts(items: Seq<Json>, rules: ChatRules) -> Seq<char> {
    if rules.drop_reasoning {
        Seq::empty()
    } else {
        thoughts_in(unspoken_tail(items, rules.drop_tools))
    }
}

/// What a conversation holds of the items that it took, behind its first messages.
spec fn tracks(c: Conversation, first: int, items: Seq<Json>, rules: ChatRules) -> bool {
    let new = c.messages.skip(first);
    let tail = unspoken_tail(items, rules.drop_tools);
    &&& 0 <= first <= c.messages.len()
    &&& calls_tell(calls_in(new) + c.calls, asked_calls(items, rules.drop_tools))
    &&& calls_tell(c.calls, asked_calls(tail, rules.drop_tools))
    &&& messages_tell(without_calls(new), spoken_among(items, rules.drop_tools))
    &&& calls_are_gathered(new)
    &&& new.len() > 0 ==> new.last().get("tool_calls"@) is None
    &&& rules.keep_reasoning ==> c.reasoning == pending_thoughts(items, rules)
    &&& !rules.keep_reasoning ==> forall|i: int|
        0 <= i < new.len() ==> (#[trigger] new[i]).get("reasoning_content"@) is None
}

proof fn lemma_words()
    ensures
        "function_call"@ != "message"@,
        "function_call"@ != "reasoning"@,
        "function_call"@ != "function_call_output"@,
        "function_call_output"@ != "message"@,
        "function_call_output"@ != "reasoning"@,
        "reasoning"@ != "message"@,
        "role"@ != "content"@,
        "role"@ != "tool_calls"@,
        "role"@ != "tool_call_id"@,
        "role"@ != "reasoning_content"@,
        "content"@ != "tool_calls"@,
        "content"@ != "tool_call_id"@,
        "content"@ != "reasoning_content"@,
        "tool_calls"@ != "tool_call_id"@,
        "tool_calls"@ != "reasoning_content"@,
        "tool_call_id"@ != "reasoning_content"@,
        "id"@ != "type"@,
        "id"@ != "function"@,
        "type"@ != "function"@,
        "name"@ != "arguments"@,
        "type"@ != "text"@,
        "type"@ != "image_url"@,
{
    reveal_strlit("function_call");
    reveal_strlit("function_call_output");
    reveal_strlit("message");
    reveal_strlit("reasoning");
    reveal_strlit("role");
    reveal_strlit("content");
    reveal_strlit("tool_calls");
    reveal_strlit("tool_call_id");
    reveal_strlit("reasoning_content");
    reveal_strlit("id");
    reveal_strlit("type");
    reveal_strlit("function");
    reveal_strlit("name");
    reveal_strlit("arguments");
    reveal_strlit("text");
    reveal_strlit("image_url");
    assert("function_call"@.len() == 13);
    assert("function_call_output"@.len() == 20);
    assert("message"@.len() == 7);
    assert("reasoning"@.len() == 9);
    assert("role"@.len() == 4);
    assert("content"@.len() == 7);
    assert("tool_calls"@.len() == 10);
    assert("tool_call_id"@.len() == 12);
    assert("reasoning_content"@.len() == 17);
    assert("id"@.len() == 2);
    assert("type"@.len() == 4);
    assert("function"@.len() == 8);
    assert("name"@.len() == 4);
    assert("arguments"@.len() == 9);
    assert("text"@.len() == 4);
    assert("image_url"@.len() == 9);
    assert("message"@[0] == 'm');
    assert("content"@[0] == 'c');
    assert("reasoning"@[0] == 'r');
    assert("arguments"@[0] == 'a');
    assert("image_url"@[0] == 'i');
    assert("role"@[0] == 'r');
    assert("type"@[0] == 't');
    assert("name"@[0] == 'n');
    assert("text"@[0] == 't');
    assert("type"@[1] == 'y');
    assert("text"@[1] == 'e');
}

/// A message that is pushed after another one.
proof fn lemma_push_message(messages: Seq<Json>, message: Json)
    ensures
        calls_in(messages.push(message)) == calls_in(messages) + (match message.get("tool_calls"@) {
            Some(Json::Array(calls)) => calls,
            _ => Seq::empty(),
        }),
        without_calls(messages.push(message)) == (if message.get("tool_calls"@) is Some {
            without_calls(messages)
        } else {
            without_calls(messages).push(message)
        }),
{
    assert(messages.push(message).drop_last() =~= messages);
}

/// Flushing turns the calls that wait into one message.
proof fn lemma_flush_tracks(c: Conversation, first: int, items: Seq<Json>, rules: ChatRules)
    requires
        tracks(c, first, items, rules),
    ensures
        ({
            let ready = flushed(c, rules.keep_reasoning);
            let new = ready.messages.skip(first);
            &&& c.messages.is_prefix_of(ready.messages)
            &&& ready.calls.len() == 0
            &&& calls_tell(calls_in(new), asked_calls(items, rules.drop_tools))
            &&& messages_tell(without_calls(new), spoken_among(items, rules.drop_tools))
            &&& calls_are_gathered(new)
            &&& !rules.keep_reasoning ==> forall|i: int|
                0 <= i < new.len() ==> (#[trigger] new[i]).get("reasoning_content"@) is None
            &&& rules.keep_reasoning ==> ready.reasoning.len() == 0
            &&& c.calls.len() == 0 ==> new == c.messages.skip(first)
            &&& c.calls.len() > 0 ==> {
                &&& new.len() == c.messages.len() - first + 1
                &&& only_calls(new.last())
                &&& new.last().get("tool_calls"@) == Some(Json::Array(c.calls))
                &&& rules.keep_reasoning ==> new.last().get("reasoning_content"@) == (
                if c.reasoning.len() > 0 {
                    Some(Json::Text(c.reasoning))
                } else {
                    None
                })
            }
        }),
{
    lemma_words();
    let ready = flushed(c, rules.keep_reasoning);
    let had = c.messages.skip(first);
    let new = ready.messages.skip(first);
    if c.calls.len() == 0 {
        assert(calls_in(had) + c.calls =~= calls_in(had));
    } else {
        let message = ready.messages.last();
        assert(new =~= had.push(message));
        lemma_push_message(had, message);
        assert(calls_in(new) == calls_in(had) + c.calls);
        assert forall|i: int| 0 <= i < new.len() && (#[trigger] new[i]).get(
            "tool_calls"@,
        ) is Some implies {
            &&& only_calls(new[i])
            &&& i + 1 < new.len() ==> new[i + 1].get("tool_calls"@) is None
        } by {
            if i < had.len() {
                assert(had[i] == new[i]);
                if i + 1 < had.len() {
                    assert(had[i + 1] == new[i + 1]);
                }
            }
        }
        assert forall|i: int| 0 <= i < new.len() && !rules.keep_reasoning implies (
        #[trigger] new[i]).get("reasoning_content"@) is None by {
            if i < had.len() {
                assert(had[i] == new[i]);
            }
        }
    }
}

/// A message that an item gets makes no calls, and says what the item says.
proof fn lemma_spoken_message(c: Conversation, item: Json, rules: ChatRules)
    requires
        is_spoken(item, rules.drop_tools),
        !rules.drop_tools ==> has_call_members(item),
        after_item(c, item, rules) is Ok,
    ensures
        ({
            let after = after_item(c, item, rules)->Ok_0;
            let ready = flushed(c, rules.keep_reasoning);
            &&& after.messages.len() > 0
            &&& after.messages == ready.messages.push(after.messages.last())
            &&& after.calls == ready.calls
            &&& after.reasoning == ready.reasoning
            &&& message_tells(after.messages.last(), item)
            &&& after.messages.last().get("tool_calls"@) is None
            &&& after.messages.last().get("reasoning_content"@) is None
        }),
{
    lemma_words();
    lemma_roles();
    let m = item->Object_0;
    let after = after_item(c, item, rules)->Ok_0;
    let last = after.messages.last();
    if item.text_at("type"@) == Some("function_call_output"@) {
        assert(m.get("call_id"@) == Some(m["call_id"@]));
        assert(m.get("output"@) == Some(m["output"@]));
    } else {
        let parts = m.get("content"@)->0->Array_0;
        assert(content_tells(upstream_content(parts), parts));
    }
}

proof fn lemma_roles()
    ensures
        "user"@ != "developer"@,
        "user"@ != "system"@,
        "assistant"@ != "developer"@,
        "assistant"@ != "system"@,
        "assistant"@ != "user"@,
{
    reveal_strlit("user");
    reveal_strlit("developer");
    reveal_strlit("system");
    reveal_strlit("assistant");
    assert("user"@.len() == 4);
    assert("developer"@.len() == 9);
    assert("system"@.len() == 6);
    assert("assistant"@.len() == 9);
    assert("developer"@[0] == 'd');
    assert("assistant"@[0] == 'a');
}

proof fn lemma_item_tracks(
    c: Conversation,
    first: int,
    items: Seq<Json>,
    item: Json,
    rules: ChatRules,
)
    requires
        tracks(c, first, items, rules),
        !rules.drop_tools ==> has_call_members(item),
        after_item(c, item, rules) is Ok,
    ensures
        tracks(after_item(c, item, rules)->Ok_0, first, items.push(item), rules),
{
    lemma_words();
    let after = after_item(c, item, rules)->Ok_0;
    let m = item->Object_0;
    let all = items.push(item);
    let drop = rules.drop_tools;
    assert(all.drop_last() =~= items);
    let had = c.messages.skip(first);
    let new = after.messages.skip(first);
    let tail = unspoken_tail(items, drop);
    if is_spoken(item, drop) {
        lemma_flush_tracks(c, first, items, rules);
        lemma_spoken_message(c, item, rules);
        let ready = flushed(c, rules.keep_reasoning);
        let flush = ready.messages.skip(first);
        let message = after.messages.last();
        assert(new =~= flush.push(message));
        lemma_push_message(flush, message);
        assert(calls_in(new) + after.calls =~= calls_in(flush));
        assert(!is_call(item));
        assert(calls_tell(after.calls, asked_calls(Seq::empty(), drop)));
        assert(messages_tell(without_calls(new), spoken_among(all, drop)));
        assert forall|i: int| 0 <= i < new.len() && (#[trigger] new[i]).get(
            "tool_calls"@,
        ) is Some implies {
            &&& only_calls(new[i])
            &&& i + 1 < new.len() ==> new[i + 1].get("tool_calls"@) is None
        } by {
            if i < flush.len() {
                assert(flush[i] == new[i]);
                if i + 1 < flush.len() {
                    assert(flush[i + 1] == new[i + 1]);
                }
            }
        }
        assert forall|i: int| 0 <= i < new.len() && !rules.keep_reasoning implies (
        #[trigger] new[i]).get("reasoning_content"@) is None by {
            if i < flush.len() {
                assert(flush[i] == new[i]);
            }
        }
        assert(after.reasoning =~= ready.reasoning);
        if rules.keep_reasoning {
            assert(after.reasoning =~= Seq::empty());
        }
    } else {
        assert(unspoken_tail(all, drop) == tail.push(item));
        assert(tail.push(item).drop_last() =~= tail);
        assert(new == had);
        if is_call(item) && !drop {
            let call = after.calls.last();
            assert(m.get("call_id"@) == Some(m["call_id"@]));
            assert(m.get("name"@) == Some(m["name"@]));
            assert(m.get("arguments"@) == Some(m["arguments"@]));
            assert(call_tells(call, item));
            assert(calls_in(new) + after.calls =~= (calls_in(new) + c.calls).push(call));
        }
    }
}

proof fn lemma_tracks(start: Conversation, items: Seq<Json>, rules: ChatRules)
    requires
        start.calls.len() == 0,
        start.reasoning.len() == 0,
        !rules.drop_tools ==> forall|i: int|
            0 <= i < items.len() ==> has_call_members(#[trigger] items[i]),
        try_fold(start, items, chat_rule(rules)) is Ok,
    ensures
        tracks(
            try_fold(start, items, chat_rule(rules))->Ok_0,
            start.messages.len() as int,
            items,
            rules,
        ),
    decreases items.len(),
{
    let first = start.messages.len() as int;
    if items.len() == 0 {
        assert(start.messages.skip(first) =~= Seq::empty());
        assert(start.reasoning =~= Seq::empty());
    } else {
        let had = items.drop_last();
        assert(forall|i: int| 0 <= i < had.len() ==> #[trigger] had[i] == items[i]);
        lemma_tracks(start, had, rules);
        let c = try_fold(start, had, chat_rule(rules))->Ok_0;
        assert(items[items.len() - 1] == items.last());
        lemma_item_tracks(c, first, had, items.last(), rules);
        assert(had.push(items.last()) =~= items);
    }
}

/// The number of messages that stand in front of those that the input gives: what was said
/// before, and the instructions.
pub open spec fn opening_len(previous: Seq<Json>, instructions: Option<Seq<char>>) -> nat {
    previous.len() + if instructions is Some {
        1nat
    } else {
        0nat
    }
}

/// Whether the items have the members by which calls and their outputs are read, where they
/// are read at all.
pub open spec fn calls_are_whole(items: Seq<Json>, drop_tools: bool) -> bool {
    !drop_tools ==> forall|i: int|
        0 <= i < items.len() ==> has_call_members(#[trigger] items[i])
}

/// What was said before comes first, and the instructions follow it as a message of the
/// system.
pub proof fn law_instructions_follow_the_history(
    previous: Seq<Json>,
    items: Seq<Json>,
    instructions: Option<Seq<char>>,
    rules: ChatRules,
)
    requires
        chat_messages(previous, items, instructions, rules) is Ok,
    ensures
        ({
            let messages = chat_messages(previous, items, instructions, rules)->Ok_0;
            &&& messages.len() >= opening_len(previous, instructions)
            &&& forall|i: int| 0 <= i < previous.len() ==> #[trigger] messages[i] == previous[i]
            &&& instructions matches Some(text) ==> {
                &&& messages[previous.len() as int].get("role"@) == Some(Json::Text("system"@))
                &&& messages[previous.len() as int].get("content"@) == Some(Json::Text(text))
            }
        }),
{
    lemma_words();
    law_history_comes_first(previous, items, instructions, rules);
    let messages = chat_messages(previous, items, instructions, rules)->Ok_0;
    let open = opening(previous, instructions).messages;
    assert forall|i: int| 0 <= i < previous.len() implies #[trigger] messages[i]
        == previous[i] by {
        assert(messages[i] == open[i]);
    }
    if instructions is Some {
        assert(messages[previous.len() as int] == open[previous.len() as int]);
    }
}

/// Nothing of the input is lost, made up or put in another order: the tool calls of the
/// new messages are those that the items ask for, the messages without calls are those that
/// the other items get, and calls that come in a row stand in one message.
pub proof fn law_input_is_told_in_order(
    previous: Seq<Json>,
    items: Seq<Json>,
    instructions: Option<Seq<char>>,
    rules: ChatRules,
)
    requires
        calls_are_whole(items, rules.drop_tools),
        chat_messages(previous, items, instructions, rules) is Ok,
    ensures
        ({
            let new = chat_messages(previous, items, instructions, rules)->Ok_0.skip(
                opening_len(previous, instructions) as int,
            );
            &&& calls_tell(calls_in(new), asked_calls(items, rules.drop_tools))
            &&& messages_tell(without_calls(new), spoken_among(items, rules.drop_tools))
            &&& calls_are_gathered(new)
        }),
{
    let start = opening(previous, instructions);
    lemma_tracks(start, items, rules);
    let c = try_fold(start, items, chat_rule(rules))->Ok_0;
    lemma_flush_tracks(c, start.messages.len() as int, items, rules);
}

/// Whether the message at `k` is the one that `item` gets, and the new messages before it
/// tell of all the items before it, and of nothing else.
pub open spec fn stands_behind(
    messages: Seq<Json>,
    first: int,
    k: int,
    before: Seq<Json>,
    item: Json,
    drop_tools: bool,
) -> bool {
    &&& first <= k < messages.len()
    &&& message_tells(messages[k], item)
    &&& calls_tell(calls_in(messages.subrange(first, k)), asked_calls(before, drop_tools))
    &&& messages_tell(
        without_calls(messages.subrange(first, k)),
        spoken_among(before, drop_tools),
    )
}

/// Every item that gets a message stands behind all that came before it. So the output of a
/// call stands behind the message that makes the call.
pub proof fn law_outputs_stand_behind_their_calls(
    previous: Seq<Json>,
    before: Seq<Json>,
    item: Json,
    after: Seq<Json>,
    instructions: Option<Seq<char>>,
    rules: ChatRules,
)
    requires
        is_spoken(item, rules.drop_tools),
        calls_are_whole(before.push(item) + after, rules.drop_tools),
        chat_messages(previous, before.push(item) + after, instructions, rules) is Ok,
    ensures
        exists|k: int|
            stands_behind(
                chat_messages(
                    previous,
                    before.push(item) + after,
                    instructions,
                    rules,
                )->Ok_0,
                opening_len(previous, instructions) as int,
                k,
                before,
                item,
                rules.drop_tools,
            ),
{
    let _k = lemma_item_place(previous, before, item, after, instructions, rules);
}

/// The place of the message that an item gets, and the message before it where calls wait.
proof fn lemma_item_place(
    previous: Seq<Json>,
    before: Seq<Json>,
    item: Json,
    after: Seq<Json>,
    instructions: Option<Seq<char>>,
    rules: ChatRules,
) -> (k: int)
    requires
        is_spoken(item, rules.drop_tools),
        calls_are_whole(before.push(item) + after, rules.drop_tools),
        chat_messages(previous, before.push(item) + after, instructions, rules) is Ok,
    ensures
        ({
            let messages = chat_messages(
                previous,
                before.push(item) + after,
                instructions,
                rules,
            )->Ok_0;
            let first = opening_len(previous, instructions) as int;
            let waiting = asked_calls(
                unspoken_tail(before, rules.drop_tools),
                rules.drop_tools,
            );
            &&& stands_behind(messages, first, k, before, item, rules.drop_tools)
            &&& waiting.len() > 0 ==> k > first && carries_waiting(
                messages[k - 1],
                waiting,
                pending_thoughts(before, rules),
                rules.keep_reasoning,
            )
        }),
{
    let start = opening(previous, instructions);
    let first = start.messages.len() as int;
    let rule = chat_rule(rules);
    let reached = before.push(item);
    let items = reached + after;
    lemma_reached(start, before, item, after, rules);
    let c = try_fold(start, before, rule)->Ok_0;
    let spoken = try_fold(start, reached, rule)->Ok_0;
    let messages = chat_messages(previous, items, instructions, rules)->Ok_0;
    lemma_item_stands(c, spoken, first, before, item, messages, rules);
    flushed(c, rules.keep_reasoning).messages.len() as int
}

/// The conversation before an item and after it, where the input that holds it is taken.
proof fn lemma_reached(
    start: Conversation,
    before: Seq<Json>,
    item: Json,
    after: Seq<Json>,
    rules: ChatRules,
)
    requires
        start.calls.len() == 0,
        start.reasoning.len() == 0,
        calls_are_whole(before.push(item) + after, rules.drop_tools),
        try_fold(start, before.push(item) + after, chat_rule(rules)) is Ok,
    ensures
        ({
            let c = try_fold(start, before, chat_rule(rules));
            let spoken = try_fold(start, before.push(item), chat_rule(rules));
            let end = try_fold(start, before.push(item) + after, chat_rule(rules));
            &&& c is Ok
            &&& spoken is Ok
            &&& spoken == after_item(c->Ok_0, item, rules)
            &&& tracks(c->Ok_0, start.messages.len() as int, before, rules)
            &&& !rules.drop_tools ==> has_call_members(item)
            &&& spoken->Ok_0.messages.is_prefix_of(end->Ok_0.messages)
            &&& spoken->Ok_0.messages.is_prefix_of(
                flushed(end->Ok_0, rules.keep_reasoning).messages,
            )
        }),
{
    let rule = chat_rule(rules);
    let reached = before.push(item);
    let items = reached + after;
    assert(items.take(reached.len() as int) =~= reached);
    if try_fold(start, reached, rule) is Err {
        lemma_try_fold_failure(start, items, reached.len() as int, rule);
    }
    assert(reached.drop_last() =~= before);
    assert(forall|i: int| 0 <= i < before.len() ==> #[trigger] before[i] == items[i]);
    assert(items[before.len() as int] == item);
    lemma_tracks(start, before, rules);
    lemma_fold_grows(start, reached, after, rules);
}

proof fn lemma_item_stands(
    c: Conversation,
    spoken: Conversation,
    first: int,
    before: Seq<Json>,
    item: Json,
    messages: Seq<Json>,
    rules: ChatRules,
)
    requires
        is_spoken(item, rules.drop_tools),
        tracks(c, first, before, rules),
        !rules.drop_tools ==> has_call_members(item),
        after_item(c, item, rules) == Ok::<Conversation, Failure>(spoken),
        spoken.messages.is_prefix_of(messages),
    ensures
        ({
            let k = flushed(c, rules.keep_reasoning).messages.len() as int;
            let waiting = asked_calls(
                unspoken_tail(before, rules.drop_tools),
                rules.drop_tools,
            );
            &&& stands_behind(messages, first, k, before, item, rules.drop_tools)
            &&& waiting.len() > 0 ==> k > first && carries_waiting(
                messages[k - 1],
                waiting,
                pending_thoughts(before, rules),
                rules.keep_reasoning,
            )
        }),
{
    lemma_flush_tracks(c, first, before, rules);
    lemma_spoken_message(c, item, rules);
    let ready = flushed(c, rules.keep_reasoning);
    let k = ready.messages.len() as int;
    assert forall|i: int| 0 <= i <= k implies #[trigger] messages[i] == spoken.messages[i] by {
        assert(messages.subrange(0, spoken.messages.len() as int)[i] == messages[i]);
    }
    assert forall|i: int| 0 <= i < k implies #[trigger] messages[i] == ready.messages[i] by {
        assert(spoken.messages[i] == ready.messages[i]);
    }
    assert(messages.subrange(first, k) =~= ready.messages.skip(first));
    if c.calls.len() > 0 {
        assert(messages[k - 1] == ready.messages[k - 1]);
        assert(ready.messages.skip(first).last() == ready.messages[k - 1]);
    }
}

/// What is said stays said, whatever comes.
proof fn lemma_fold_grows(start: Conversation, a: Seq<Json>, b: Seq<Json>, rules: ChatRules)
    requires
        try_fold(start, a, chat_rule(rules)) is Ok,
        try_fold(start, a + b, chat_rule(rules)) is Ok,
    ensures
        try_fold(start, a, chat_rule(rules))->Ok_0.messages.is_prefix_of(
            try_fold(start, a + b, chat_rule(rules))->Ok_0.messages,
        ),
    decreases b.len(),
{
    if b.len() == 0 {
        assert(a + b =~= a);
    } else {
        assert((a + b).drop_last() =~= a + b.drop_last());
        lemma_fold_grows(start, a, b.drop_last(), rules);
    }
}

/// Whether a message makes the calls that wait, all of them and no others, and carries the
/// reasoning that came before them where the upstream takes it.
pub open spec fn carries_waiting(
    message: Json,
    waiting: Seq<Json>,
    thoughts: Seq<char>,
    keep_reasoning: bool,
) -> bool {
    &&& only_calls(message)
    &&& message.get("tool_calls"@) matches Some(Json::Array(calls))
    &&& calls_tell(calls, waiting)
    &&& keep_reasoning ==> message.get("reasoning_content"@) == (if thoughts.len() > 0 {
        Some(Json::Text(thoughts))
    } else {
        None
    })
}

/// Calls that come in a row, with reasoning before or between them, stand in the one
/// message in front of what follows them, and the reasoning goes along.
pub proof fn law_calls_in_a_row_stand_together(
    previous: Seq<Json>,
    before: Seq<Json>,
    item: Json,
    after: Seq<Json>,
    instructions: Option<Seq<char>>,
    rules: ChatRules,
)
    requires
        is_spoken(item, rules.drop_tools),
        asked_calls(unspoken_tail(before, rules.drop_tools), rules.drop_tools).len() > 0,
        calls_are_whole(before.push(item) + after, rules.drop_tools),
        chat_messages(previous, before.push(item) + after, instructions, rules) is Ok,
    ensures
        ({
            let messages = chat_messages(
                previous,
                before.push(item) + after,
                instructions,
                rules,
            )->Ok_0;
            exists|k: int|
                #![trigger messages[k]]
                0 < k < messages.len() && message_tells(messages[k], item) && carries_waiting(
                    messages[k - 1],
                    asked_calls(unspoken_tail(before, rules.drop_tools), rules.drop_tools),
                    pending_thoughts(before, rules),
                    rules.keep_reasoning,
                )
        }),
{
    let k = lemma_item_place(previous, before, item, after, instructions, rules);
    let messages = chat_messages(previous, before.push(item) + after, instructions, rules)->Ok_0;
    assert(message_tells(messages[k], item));
}

/// Calls that nothing follows stand in the last message, and the reasoning goes along.
pub proof fn law_last_calls_stand_together(
    previous: Seq<Json>,
    items: Seq<Json>,
    instructions: Option<Seq<char>>,
    rules: ChatRules,
)
    requires
        asked_calls(unspoken_tail(items, rules.drop_tools), rules.drop_tools).len() > 0,
        calls_are_whole(items, rules.drop_tools),
        chat_messages(previous, items, instructions, rules) is Ok,
    ensures
        carries_waiting(
            chat_messages(previous, items, instructions, rules)->Ok_0.last(),
            asked_calls(unspoken_tail(items, rules.drop_tools), rules.drop_tools),
            pending_thoughts(items, rules),
            rules.keep_reasoning,
        ),
{
    let start = opening(previous, instructions);
    let first = start.messages.len() as int;
    lemma_tracks(start, items, rules);
    let c = try_fold(start, items, chat_rule(rules))->Ok_0;
    lemma_flush_tracks(c, first, items, rules);
    let messages = flushed(c, rules.keep_reasoning).messages;
    assert(messages.skip(first).last() == messages.last());
}

/// Where the upstream takes no reasoning, none goes there with the input.
pub proof fn law_reasoning_stays_where_it_is_not_taken(
    previous: Seq<Json>,
    items: Seq<Json>,
    instructions: Option<Seq<char>>,
    rules: ChatRules,
)
    requires
        !rules.keep_reasoning,
        calls_are_whole(items, rules.drop_tools),
        chat_messages(previous, items, instructions, rules) is Ok,
    ensures
        ({
            let messages = chat_messages(previous, items, instructions, rules)->Ok_0;
            forall|i: int|
                opening_len(previous, instructions) <= i < messages.len() ==> (
                #[trigger] messages[i]).get("reasoning_content"@) is None
        }),
{
    let start = opening(previous, instructions);
    let first = start.messages.len() as int;
    lemma_tracks(start, items, rules);
    let c = try_fold(start, items, chat_rule(rules))->Ok_0;
    lemma_flush_tracks(c, first, items, rules);
    let messages = flushed(c, rules.keep_reasoning).messages;
    assert forall|i: int|
        opening_len(previous, instructions) <= i < messages.len() implies (
    #[trigger] messages[i]).get("reasoning_content"@) is None by {
        assert(messages.skip(first)[i - first] == messages[i]);
    }
}

/// An item of a kind that is not known is refused, and so is the whole input.
pub proof fn law_unknown_items_are_refused(
    previous: Seq<Json>,
    before: Seq<Json>,
    item: Json,
    after: Seq<Json>,
    instructions: Option<Seq<char>>,
    rules: ChatRules,
)
    requires
        ({
            let kind = item.text_at("type"@);
            ||| !(item is Object)
            ||| kind is Some && kind != Some("message"@) && kind != Some("reasoning"@) && kind
                != Some("function_call"@) && kind != Some("function_call_output"@)
        }),
    ensures
        chat_messages(previous, before.push(item) + after, instructions, rules) is Err,
{
    let start = opening(previous, instructions);
    let rule = chat_rule(rules);
    let reached = before.push(item);
    assert(reached.drop_last() =~= before);
    assert(try_fold(start, reached, rule) is Err);
    assert((reached + after).take(reached.len() as int) =~= reached);
    lemma_try_fold_failure(start, reached + after, reached.len() as int, rule);
}

/// Whether an item is of a kind that is known, and is a message in a role that is known
/// with a list of parts if it is a message.
pub open spec fn is_acceptable(item: Json) -> bool {
    let kind = item.text_at("type"@);
    let role = item.text_at("role"@);
    &&& item is Object
    &&& {
        ||| kind == Some("reasoning"@)
        ||| kind == Some("function_call"@)
        ||| kind == Some("function_call_output"@)
        ||| {
            &&& kind is None || kind == Some("message"@)
            &&& role == Some("developer"@) || role == Some("system"@) || role == Some("user"@)
                || role == Some("assistant"@)
            &&& item.get("content"@) matches Some(Json::Array(_))
        }
    }
}

/// Input whose items are all acceptable is taken, as long as any message comes of it.
pub proof fn law_acceptable_input_is_taken(
    previous: Seq<Json>,
    items: Seq<Json>,
    instructions: Option<Seq<char>>,
    rules: ChatRules,
)
    requires
        calls_are_whole(items, rules.drop_tools),
        forall|i: int| 0 <= i < items.len() ==> is_acceptable(#[trigger] items[i]),
    ensures
        opening_len(previous, instructions) + spoken_among(items, rules.drop_tools).len()
            + asked_calls(items, rules.drop_tools).len() > 0 ==> chat_messages(
            previous,
            items,
            instructions,
            rules,
        ) is Ok,
{
    let start = opening(previous, instructions);
    let first = start.messages.len() as int;
    lemma_acceptable(start, items, rules);
    lemma_tracks(start, items, rules);
    let c = try_fold(start, items, chat_rule(rules))->Ok_0;
    lemma_flush_tracks(c, first, items, rules);
    let messages = flushed(c, rules.keep_reasoning).messages;
    if messages.len() == 0 {
        assert(messages.skip(first) =~= Seq::empty());
    }
}

proof fn lemma_acceptable(start: Conversation, items: Seq<Json>, rules: ChatRules)
    requires
        forall|i: int| 0 <= i < items.len() ==> is_acceptable(#[trigger] items[i]),
    ensures
        try_fold(start, items, chat_rule(rules)) is Ok,
    decreases items.len(),
{
    if items.len() > 0 {
        let had = items.drop_last();
        assert(forall|i: int| 0 <= i < had.len() ==> #[trigger] had[i] == items[i]);
        lemma_acceptable(start, had, rules);
        lemma_words();
        assert(is_acceptable(items[items.len() - 1]));
    }
}

/// A conversation that is sent is never empty, and one that would be is refused.
pub proof fn law_empty_conversations_are_refused(
    previous: Seq<Json>,
    items: Seq<Json>,
    instructions: Option<Seq<char>>,
    rules: ChatRules,
)
    ensures
        chat_messages(previous, items, instructions, rules) matches Ok(messages) ==> messages.len()
            > 0,
        previous.len() == 0 && items.len() == 0 && instructions is None ==> chat_messages(
            previous,
            items,
            instructions,
            rules,
        ) is Err,
{
}

} // verus!
