//! The assistant's turn: what an upstream answered, and how it stands in the history.

use crate::conversation::{call_entry, call_entry_value};
use crate::error::{outcome, Failure, ProxyError};
use crate::codec::encoded_json;
use crate::fold::{
    lemma_try_fold_failure, lemma_try_fold_step, lemma_try_map_failure, lemma_try_map_items,
    lemma_try_map_step, try_fold, try_map,
};
use crate::ids::{fresh_id, is_fresh_id};
use crate::json::{array_of, object, object_of, Json, JsonValue, Object};
use crate::normalize::{member_text, refused};
use crate::reasoning::{
    extract_first_reasoning, first_reasoning, or_nothing, stringified, stringify_json_value,
};
use crate::text::{concat, concat3, same_text, texts};
use vstd::prelude::*;
use vstd::string::*;

verus! {

/// A call of a tool.
#[derive(Debug, PartialEq)]
pub struct ToolCall {
    pub call_id: String,
    pub name: String,
    pub arguments: String,
}

/// What the assistant said, thought and called in one turn.
#[derive(Debug, PartialEq)]
pub struct AssistantTurn {
    pub text: String,
    pub reasoning: String,
    pub tool_calls: Vec<ToolCall>,
}

/// What a [`ToolCall`] stands for.
#[verifier::ext_equal]
pub struct Call {
    pub call_id: Seq<char>,
    pub name: Seq<char>,
    pub arguments: Seq<char>,
}

/// What an [`AssistantTurn`] stands for.
#[verifier::ext_equal]
pub struct Turn {
    pub text: Seq<char>,
    pub reasoning: Seq<char>,
    pub calls: Seq<Call>,
}

impl View for ToolCall {
    type V = Call;

    open spec fn view(&self) -> Call {
        Call { call_id: self.call_id@, name: self.name@, arguments: self.arguments@ }
    }
}

/// What a sequence of tool calls stands for.
pub open spec fn calls_of(calls: Seq<ToolCall>) -> Seq<Call> {
    Seq::new(calls.len(), |i: int| calls[i]@)
}

impl View for AssistantTurn {
    type V = Turn;

    open spec fn view(&self) -> Turn {
        Turn {
            text: self.text@,
            reasoning: self.reasoning@,
            calls: calls_of(self.tool_calls@),
        }
    }
}

/// The turn in which nothing happened.
pub open spec fn no_turn() -> Turn {
    Turn { text: Seq::empty(), reasoning: Seq::empty(), calls: Seq::empty() }
}

impl Clone for ToolCall {
    fn clone(&self) -> (copy: Self)
        ensures
            copy@ == self@,
    {
        ToolCall {
            call_id: self.call_id.clone(),
            name: self.name.clone(),
            arguments: self.arguments.clone(),
        }
    }
}

/// A copy of a list of calls.
pub fn copy_calls(calls: &Vec<ToolCall>) -> (copies: Vec<ToolCall>)
    ensures
        calls_of(copies@) == calls_of(calls@),
{
    let mut copies: Vec<ToolCall> = Vec::new();
    let mut i: usize = 0;
    while i < calls.len()
        invariant
            i <= calls@.len(),
            copies@.len() == i,
            forall|k: int| 0 <= k < i ==> (#[trigger] copies@[k])@ == calls@[k]@,
        decreases calls@.len() - i,
    {
        copies.push(calls[i].clone());
        i += 1;
    }
    assert(calls_of(copies@) =~= calls_of(calls@));
    copies
}

impl Clone for AssistantTurn {
    fn clone(&self) -> (copy: Self)
        ensures
            copy@ == self@,
    {
        AssistantTurn {
            text: self.text.clone(),
            reasoning: self.reasoning.clone(),
            tool_calls: copy_calls(&self.tool_calls),
        }
    }
}

impl Default for AssistantTurn {
    fn default() -> (turn: Self)
        ensures
            turn@ == no_turn(),
    {
        let turn = AssistantTurn {
            text: String::new(),
            reasoning: String::new(),
            tool_calls: Vec::new(),
        };
        assert(calls_of(turn.tool_calls@) =~= Seq::empty());
        turn
    }
}

/// The text of one content part; images have none.
pub open spec fn text_of_part(part: Json) -> Result<Seq<char>, Failure> {
    match part {
        Json::Text(t) => Ok(t),
        Json::Object(m) => {
            let kind = match member_text(m.get("type"@)) {
                Some(k) => k,
                None => "text"@,
            };
            if kind == "input_text"@ || kind == "output_text"@ || kind == "text"@ {
                match member_text(m.get("text"@)) {
                    Some(t) => Ok(t),
                    None => refused("text part is missing text"@),
                }
            } else if kind == "input_image"@ || kind == "image_url"@ {
                Ok(Seq::empty())
            } else {
                refused("unsupported content part type `"@ + kind + "`"@)
            }
        },
        _ => refused("content parts must be strings or objects"@),
    }
}

/// The rule by which the texts of parts are put together.
pub open spec fn text_rule() -> spec_fn(Seq<char>, Json) -> Result<Seq<char>, Failure> {
    |so_far: Seq<char>, part: Json|
        match text_of_part(part) {
            Ok(t) => Ok(so_far + t),
            Err(e) => Err(e),
        }
}

/// The text of a message's content.
pub open spec fn message_text(content: Json) -> Result<Seq<char>, Failure> {
    match content {
        Json::Text(t) => Ok(t),
        Json::Array(parts) => try_fold(Seq::empty(), parts, text_rule()),
        Json::Null => Ok(Seq::empty()),
        _ => refused("message content must be a string or array"@),
    }
}

/// A tool call in an upstream's answer. `fallback` is its identifier where it has none.
pub open spec fn answered_call(call: Json, fallback: Seq<char>) -> Result<Call, Failure> {
    match call {
        Json::Object(m) => match m.get("function"@) {
            Some(Json::Object(f)) => match member_text(f.get("name"@)) {
                None => refused("upstream tool_calls need function.name"@),
                Some(name) => match f.get("arguments"@) {
                    None => refused("upstream tool_calls need function.arguments"@),
                    Some(arguments) => match stringified(arguments) {
                        Err(e) => Err(e),
                        Ok(text) => Ok(
                            Call {
                                call_id: match member_text(m.get("id"@)) {
                                    Some(id) => id,
                                    None => fallback,
                                },
                                name,
                                arguments: text,
                            },
                        ),
                    },
                },
            },
            _ => refused("upstream tool_calls need function"@),
        },
        _ => refused("upstream tool_calls must be objects"@),
    }
}

/// The rule by which tool calls are read, each with its fallback identifier.
pub open spec fn call_rule() -> spec_fn((Json, Seq<char>)) -> Result<Call, Failure> {
    |c: (Json, Seq<char>)| answered_call(c.0, c.1)
}

/// The list of tool calls in an answer.
pub open spec fn call_list(calls: Option<Json>) -> Seq<Json> {
    match calls {
        Some(Json::Array(list)) => list,
        _ => Seq::empty(),
    }
}

/// The tool calls of an upstream's answer.
pub open spec fn answered_calls(calls: Option<Json>, fallbacks: Seq<Seq<char>>) -> Result<
    Seq<Call>,
    Failure,
> {
    let list = call_list(calls);
    try_map(Seq::new(list.len(), |i: int| (list[i], fallbacks[i])), call_rule())
}

/// The message of an upstream's answer.
pub open spec fn answered_message(upstream: Json) -> Result<Map<Seq<char>, Json>, Failure> {
    match upstream.get("choices"@) {
        Some(Json::Array(choices)) => if choices.len() == 0 {
            refused("upstream response is missing choices[0]"@)
        } else {
            match choices[0].get("message"@) {
                Some(Json::Object(m)) => Ok(m),
                _ => refused("upstream response is missing message"@),
            }
        },
        _ => refused("upstream response is missing choices[0]"@),
    }
}

/// The turn in an upstream's answer.
pub open spec fn answered_turn(upstream: Json, fallbacks: Seq<Seq<char>>) -> Result<Turn, Failure> {
    match answered_message(upstream) {
        Err(e) => Err(e),
        Ok(m) => {
            let text = match m.get("content"@) {
                Some(content) => message_text(content),
                None => Ok(Seq::empty()),
            };
            match text {
                Err(e) => Err(e),
                Ok(text) => match answered_calls(m.get("tool_calls"@), fallbacks) {
                    Err(e) => Err(e),
                    Ok(calls) => Ok(
                        Turn {
                            text,
                            reasoning: match first_reasoning(m) {
                                Some(r) => r,
                                None => Seq::empty(),
                            },
                            calls,
                        },
                    ),
                },
            }
        },
    }
}

/// The number of tool calls in an upstream's answer.
pub open spec fn answered_call_count(upstream: Json) -> nat {
    match answered_message(upstream) {
        Ok(m) => call_list(m.get("tool_calls"@)).len(),
        Err(_) => 0,
    }
}

fn extract_text_part(part: &JsonValue) -> (r: Result<String, ProxyError>)
    ensures
        outcome(r) == text_of_part(part@),
{
    if let Some(text) = part.as_str() {
        return Ok(text.to_owned());
    }
    let map = match part.as_object() {
        Some(map) => map,
        None => return Err(ProxyError::bad_request("content parts must be strings or objects")),
    };
    let kind = match map.member("type") {
        Some(JsonValue::Text(kind)) => kind.as_str(),
        _ => "text",
    };
    if same_text(kind, "input_text") || same_text(kind, "output_text") || same_text(kind, "text") {
        match map.member("text") {
            Some(JsonValue::Text(text)) => Ok(text.clone()),
            _ => Err(ProxyError::bad_request("text part is missing text")),
        }
    } else if same_text(kind, "input_image") || same_text(kind, "image_url") {
        Ok(String::new())
    } else {
        Err(ProxyError::BadRequest(concat3("unsupported content part type `", kind, "`")))
    }
}

/// The text of a message's content.
pub fn extract_message_text(value: &JsonValue) -> (r: Result<String, ProxyError>)
    ensures
        outcome(r) == message_text(value@),
{
    match value {
        JsonValue::Text(text) => Ok(text.clone()),
        JsonValue::Array(parts) => {
            let ghost all = array_of(parts@);
            let ghost rule = text_rule();
            let ghost start = Seq::<char>::empty();
            let mut text = String::new();
            let mut i: usize = 0;
            assert(all.take(0) =~= Seq::empty());
            while i < parts.len()
                invariant
                    i <= parts@.len(),
                    all == array_of(parts@),
                    value@ == Json::Array(all),
                    rule == text_rule(),
                    start == Seq::<char>::empty(),
                    try_fold(start, all.take(i as int), rule) == Ok::<Seq<char>, Failure>(text@),
                decreases parts@.len() - i,
            {
                proof {
                    lemma_try_fold_step(start, all, i as int, rule);
                    assert(all[i as int] == parts@[i as int]@);
                }
                match extract_text_part(&parts[i]) {
                    Ok(t) => text.append(t.as_str()),
                    Err(e) => {
                        proof {
                            lemma_try_fold_failure(start, all, i + 1, rule);
                        }
                        return Err(e);
                    },
                }
                i += 1;
            }
            assert(all.take(i as int) =~= all);
            Ok(text)
        },
        JsonValue::Null => Ok(String::new()),
        _ => Err(ProxyError::bad_request("message content must be a string or array")),
    }
}

/// Reads one tool call of an upstream's answer.
pub fn parse_tool_call(tool_call: &JsonValue, fallback: &str) -> (r: Result<ToolCall, ProxyError>)
    ensures
        outcome(r) == answered_call(tool_call@, fallback@),
{
    let map = match tool_call.as_object() {
        Some(map) => map,
        None => return Err(ProxyError::bad_request("upstream tool_calls must be objects")),
    };
    let function = match map.member("function") {
        Some(JsonValue::Object(f)) => f,
        _ => return Err(ProxyError::bad_request("upstream tool_calls need function")),
    };
    let name = match function.member("name") {
        Some(JsonValue::Text(name)) => name.clone(),
        _ => return Err(ProxyError::bad_request("upstream tool_calls need function.name")),
    };
    let arguments = match function.member("arguments") {
        Some(v) => match stringify_json_value(v) {
            Ok(text) => text,
            Err(e) => return Err(e),
        },
        None => return Err(
            ProxyError::bad_request("upstream tool_calls need function.arguments"),
        ),
    };
    let call_id = match map.member("id") {
        Some(JsonValue::Text(id)) => id.clone(),
        _ => fallback.to_owned(),
    };
    Ok(ToolCall { call_id, name, arguments })
}

/// The outcome of reading tool calls, over what they stand for.
pub open spec fn calls_outcome(r: Result<Vec<ToolCall>, ProxyError>) -> Result<
    Seq<Call>,
    Failure,
> {
    match r {
        Ok(calls) => Ok(calls_of(calls@)),
        Err(e) => Err(e@),
    }
}

/// Reads the tool calls of an upstream's answer. The identifiers in `fallbacks` stand in
/// for those that are missing.
pub fn parse_tool_calls(value: Option<&JsonValue>, fallbacks: &Vec<String>) -> (r: Result<
    Vec<ToolCall>,
    ProxyError,
>)
    requires
        call_list(value.deep_view()).len() <= fallbacks@.len(),
    ensures
        calls_outcome(r) == answered_calls(value.deep_view(), texts(fallbacks@)),
{
    let mut parsed: Vec<ToolCall> = Vec::new();
    let ghost pairs = {
        let list = call_list(value.deep_view());
        Seq::new(list.len(), |i: int| (list[i], texts(fallbacks@)[i]))
    };
    let ghost rule = call_rule();
    assert(calls_of(parsed@) =~= Seq::empty());
    match value {
        Some(JsonValue::Array(list)) => {
            let mut i: usize = 0;
            assert(pairs.take(0) =~= Seq::empty());
            while i < list.len()
                invariant
                    i <= list@.len() <= fallbacks@.len(),
                    value.deep_view() == Some(Json::Array(array_of(list@))),
                    pairs == Seq::new(
                        call_list(value.deep_view()).len(),
                        |k: int|
                            (call_list(value.deep_view())[k], texts(fallbacks@)[k]),
                    ),
                    rule == call_rule(),
                    try_map(pairs.take(i as int), rule) == Ok::<Seq<Call>, Failure>(
                        calls_of(parsed@),
                    ),
                decreases list@.len() - i,
            {
                proof {
                    lemma_try_map_step(pairs, i as int, rule);
                    assert(pairs[i as int] == (list@[i as int]@, fallbacks@[i as int]@));
                }
                match parse_tool_call(&list[i], fallbacks[i].as_str()) {
                    Ok(call) => {
                        let ghost before = parsed@;
                        parsed.push(call);
                        assert(calls_of(parsed@) =~= calls_of(before).push(call@));
                    },
                    Err(e) => {
                        proof {
                            lemma_try_map_failure(pairs, i + 1, rule);
                        }
                        return Err(e);
                    },
                }
                i += 1;
            }
            assert(pairs.take(i as int) =~= pairs);
        },
        _ => {},
    }
    Ok(parsed)
}

fn find_message(upstream: &JsonValue) -> (r: Result<&Object, ProxyError>)
    ensures
        match r {
            Ok(o) => answered_message(upstream@) == Ok::<Map<Seq<char>, Json>, Failure>(
                object_of(*o),
            ),
            Err(e) => answered_message(upstream@) == Err::<Map<Seq<char>, Json>, Failure>(e@),
        },
{
    let choices = match upstream.get("choices") {
        Some(JsonValue::Array(choices)) => choices,
        _ => return Err(ProxyError::bad_request("upstream response is missing choices[0]")),
    };
    if choices.len() == 0 {
        return Err(ProxyError::bad_request("upstream response is missing choices[0]"));
    }
    assert(array_of(choices@)[0] == choices@[0]@);
    match choices[0].get("message") {
        Some(JsonValue::Object(o)) => Ok(o),
        _ => Err(ProxyError::bad_request("upstream response is missing message")),
    }
}

/// The number of tool calls in an upstream's answer.
pub fn count_answered_calls(upstream: &JsonValue) -> (n: usize)
    ensures
        n == answered_call_count(upstream@),
{
    match find_message(upstream) {
        Ok(message) => match message.member("tool_calls") {
            Some(JsonValue::Array(list)) => list.len(),
            _ => 0,
        },
        Err(_) => 0,
    }
}

/// Reads the assistant's turn from an upstream's answer, with the identifiers in
/// `fallbacks` for the calls that have none.
pub fn parse_assistant_turn(upstream: &JsonValue, fallbacks: &Vec<String>) -> (r: Result<
    AssistantTurn,
    ProxyError,
>)
    requires
        answered_call_count(upstream@) <= fallbacks@.len(),
    ensures
        outcome(r) == answered_turn(upstream@, texts(fallbacks@)),
{
    let message = match find_message(upstream) {
        Ok(message) => message,
        Err(e) => return Err(e),
    };
    let text = match message.member("content") {
        Some(content) => match extract_message_text(content) {
            Ok(text) => text,
            Err(e) => return Err(e),
        },
        None => String::new(),
    };
    let reasoning = match extract_first_reasoning(message) {
        Some(r) => r,
        None => String::new(),
    };
    match parse_tool_calls(message.member("tool_calls"), fallbacks) {
        Ok(tool_calls) => Ok(AssistantTurn { text, reasoning, tool_calls }),
        Err(e) => Err(e),
    }
}

/// Whether identifiers are fresh ones for tool calls.
pub open spec fn are_fresh_call_ids(ids: Seq<Seq<char>>) -> bool {
    forall|i: int| 0 <= i < ids.len() ==> is_fresh_id(#[trigger] ids[i], "call_"@)
}

/// Reads the assistant's turn from an upstream's answer. A call without an identifier
/// gets a fresh one.
pub fn parse_assistant_turn_from_response(upstream: &JsonValue) -> (r: Result<
    AssistantTurn,
    ProxyError,
>)
    ensures
        exists|ids: Seq<Seq<char>>|
            are_fresh_call_ids(ids) && ids.len() == answered_call_count(upstream@) && outcome(r)
                == #[trigger] answered_turn(upstream@, ids),
{
    let n = count_answered_calls(upstream);
    let mut ids: Vec<String> = Vec::new();
    while ids.len() < n
        invariant
            ids@.len() <= n,
            are_fresh_call_ids(texts(ids@)),
        decreases n - ids@.len(),
    {
        let ghost before = texts(ids@);
        let id = fresh_id("call_");
        ids.push(id);
        assert(texts(ids@) =~= before.push(id@));
    }
    let r = parse_assistant_turn(upstream, &ids);
    assert(outcome(r) == answered_turn(upstream@, texts(ids@)));
    r
}

/// The tool calls of an assistant message.
pub open spec fn call_entries(calls: Seq<Call>) -> Json {
    Json::Array(
        Seq::new(
            calls.len(),
            |i: int|
                call_entry(
                    Json::Text(calls[i].call_id),
                    Json::Text(calls[i].name),
                    Json::Text(calls[i].arguments),
                ),
        ),
    )
}

/// The message under which a turn stands in the history; a turn without text and calls
/// leaves none.
pub open spec fn history_message(turn: Turn) -> Option<Json> {
    if turn.text.len() == 0 && turn.calls.len() == 0 {
        None
    } else {
        let base = map![
            "role"@ => Json::Text("assistant"@),
            "content"@ => if turn.text.len() == 0 {
                Json::Null
            } else {
                Json::Text(turn.text)
            },
        ];
        let called = if turn.calls.len() > 0 {
            base.insert("tool_calls"@, call_entries(turn.calls))
        } else {
            base
        };
        Some(
            Json::Object(
                if turn.reasoning.len() > 0 {
                    called.insert("reasoning_content"@, Json::Text(turn.reasoning))
                } else {
                    called
                },
            ),
        )
    }
}

/// The tool calls of an assistant message.
pub fn call_entry_values(calls: &Vec<ToolCall>) -> (v: JsonValue)
    ensures
        v@ == call_entries(calls_of(calls@)),
{
    let mut list: Vec<JsonValue> = Vec::new();
    let mut i: usize = 0;
    while i < calls.len()
        invariant
            i <= calls@.len(),
            list@.len() == i,
            forall|k: int|
                0 <= k < i ==> (#[trigger] list@[k])@ == call_entry(
                    Json::Text(calls@[k].call_id@),
                    Json::Text(calls@[k].name@),
                    Json::Text(calls@[k].arguments@),
                ),
        decreases calls@.len() - i,
    {
        let entry = call_entry_value(
            JsonValue::Text(calls[i].call_id.clone()),
            JsonValue::Text(calls[i].name.clone()),
            JsonValue::Text(calls[i].arguments.clone()),
        );
        list.push(entry);
        i += 1;
    }
    assert(array_of(list@) =~= call_entries(calls_of(calls@))->Array_0);
    JsonValue::Array(list)
}

/// The message under which a turn stands in the history.
pub fn build_history_message(turn: &AssistantTurn) -> (message: Option<JsonValue>)
    ensures
        message.deep_view() == history_message(turn@),
{
    let silent = turn.text.as_str().is_empty();
    if silent && turn.tool_calls.len() == 0 {
        return None;
    }
    let content = if silent {
        JsonValue::Null
    } else {
        JsonValue::Text(turn.text.clone())
    };
    let mut message = object().with("role", JsonValue::text("assistant")).with("content", content);
    if turn.tool_calls.len() > 0 {
        message.set("tool_calls", call_entry_values(&turn.tool_calls));
    }
    if !turn.reasoning.as_str().is_empty() {
        message.set("reasoning_content", JsonValue::Text(turn.reasoning.clone()));
    }
    Some(JsonValue::Object(message))
}

/// The identifier of the output item for a call.
pub fn function_item_id(call_id: &str) -> (id: String)
    ensures
        id@ == "fc_"@ + call_id@,
{
    concat("fc_", call_id)
}

impl Turn {
    /// Whether the turn has a message item: it has text, or no calls.
    pub open spec fn has_message(self) -> bool {
        self.text.len() > 0 || self.calls.len() == 0
    }

    /// The output index of the message item.
    pub open spec fn reasoning_offset(self) -> nat {
        if self.reasoning.len() == 0 {
            0
        } else {
            1
        }
    }

    /// The output index of the first call.
    pub open spec fn message_offset(self) -> nat {
        self.reasoning_offset() + if self.has_message() {
            1nat
        } else {
            0nat
        }
    }
}

pub fn reasoning_output_offset(turn: &AssistantTurn) -> (n: usize)
    ensures
        n == turn@.reasoning_offset(),
{
    if turn.reasoning.as_str().is_empty() {
        0
    } else {
        1
    }
}

pub fn message_output_offset(turn: &AssistantTurn) -> (n: usize)
    ensures
        n == turn@.message_offset(),
{
    let message: usize = if !turn.text.as_str().is_empty() || turn.tool_calls.len() == 0 {
        1
    } else {
        0
    };
    reasoning_output_offset(turn) + message
}

/// The number of output items before the calls of a turn: those of hosted tools, the
/// reasoning and the message.
pub fn pre_turn_output_count(turn: &AssistantTurn, hosted_count: usize) -> (n: usize)
    requires
        hosted_count + turn@.message_offset() <= usize::MAX,
    ensures
        n == hosted_count + turn@.message_offset(),
{
    hosted_count + message_output_offset(turn)
}

/// Whether a call is the one that stands in an upstream's answer: under its identifier, or
/// under the one that stands in for it, with its name and with its arguments. Arguments that
/// are a text are kept as they are; other ones are kept as the JSON text written for them.
pub open spec fn is_read_from(call: Call, answered: Json, fallback: Seq<char>) -> bool {
    &&& call.call_id == (match answered.text_at("id"@) {
        Some(id) => id,
        None => fallback,
    })
    &&& answered.get("function"@) matches Some(f)
    &&& f.text_at("name"@) == Some(call.name)
    &&& match f.get("arguments"@) {
        Some(Json::Text(t)) => call.arguments == t,
        Some(Json::Null) => call.arguments.len() == 0,
        Some(v) => encoded_json(v) == Ok::<Seq<char>, Seq<char>>(call.arguments),
        None => false,
    }
}

/// Whether a tool call in an upstream's answer can be read: it names a function, and its
/// arguments are a text, null, or a value that can be written.
pub open spec fn is_readable_call(answered: Json) -> bool {
    &&& answered.get("function"@) matches Some(f)
    &&& f.text_at("name"@) is Some
    &&& f.get("arguments"@) matches Some(v)
    &&& v is Text || v is Null || encoded_json(v) is Ok
}

/// A tool call is read as it stands in the answer, and nothing else is read as one.
pub proof fn law_calls_are_read_as_they_stand(answered: Json, fallback: Seq<char>)
    ensures
        answered_call(answered, fallback) is Ok <==> is_readable_call(answered),
        answered_call(answered, fallback) matches Ok(call) ==> is_read_from(
            call,
            answered,
            fallback,
        ),
{
    if let Ok(call) = answered_call(answered, fallback) {
        let v = answered.get("function"@)->0.get("arguments"@)->0;
        if v is Null {
            assert(call.arguments.len() == 0);
        }
    }
}

/// The message in an upstream's answer: that of the first choice.
pub open spec fn first_message(upstream: Json) -> Option<Json> {
    match upstream.get("choices"@) {
        Some(Json::Array(choices)) => if choices.len() > 0 {
            choices[0].get("message"@)
        } else {
            None
        },
        _ => None,
    }
}

/// A turn is read from the first message of an answer: its text where it is one text, its
/// calls one by one and in order. An answer without a message is refused.
pub proof fn law_turns_are_read_from_the_answer(upstream: Json, fallbacks: Seq<Seq<char>>)
    ensures
        !(first_message(upstream) matches Some(Json::Object(_))) ==> answered_turn(
            upstream,
            fallbacks,
        ) is Err,
        answered_turn(upstream, fallbacks) matches Ok(turn) ==> {
            let message = first_message(upstream)->0;
            &&& message.get("content"@) matches Some(Json::Text(t)) ==> turn.text == t
            &&& message.get("content"@) is None || message.get("content"@) == Some(Json::Null)
                ==> turn.text.len() == 0
            &&& turn.reasoning == or_nothing(first_reasoning(message->Object_0))
            &&& match message.get("tool_calls"@) {
                Some(Json::Array(list)) => {
                    &&& turn.calls.len() == list.len()
                    &&& forall|i: int|
                        0 <= i < list.len() ==> is_read_from(
                            #[trigger] turn.calls[i],
                            list[i],
                            fallbacks[i],
                        )
                },
                _ => turn.calls.len() == 0,
            }
        },
{
    if let Ok(turn) = answered_turn(upstream, fallbacks) {
        let m = first_message(upstream)->0->Object_0;
        let list = call_list(m.get("tool_calls"@));
        let pairs = Seq::new(list.len(), |i: int| (list[i], fallbacks[i]));
        lemma_try_map_items(pairs, call_rule());
        assert forall|i: int| 0 <= i < list.len() implies is_read_from(
            #[trigger] turn.calls[i],
            list[i],
            fallbacks[i],
        ) by {
            assert(call_rule()(pairs[i]) == Ok::<Call, Failure>(turn.calls[i]));
            law_calls_are_read_as_they_stand(list[i], fallbacks[i]);
        }
    }
}

/// An answer whose content is a text, null or left out, and whose calls can be read, gives a
/// turn.
pub proof fn law_readable_answers_give_a_turn(upstream: Json, fallbacks: Seq<Seq<char>>)
    requires
        first_message(upstream) matches Some(Json::Object(m)) && {
            &&& m.get("content"@) is None || m.get("content"@)->0 is Text || m.get("content"@)->0
                is Null
            &&& match m.get("tool_calls"@) {
                Some(Json::Array(list)) => forall|i: int|
                    0 <= i < list.len() ==> is_readable_call(#[trigger] list[i]),
                _ => true,
            }
        },
    ensures
        answered_turn(upstream, fallbacks) is Ok,
{
    let m = first_message(upstream)->0->Object_0;
    let list = call_list(m.get("tool_calls"@));
    let pairs = Seq::new(list.len(), |i: int| (list[i], fallbacks[i]));
    assert forall|i: int| 0 <= i < pairs.len() implies call_rule()(#[trigger] pairs[i]) is Ok by {
        assert(is_readable_call(list[i]));
        law_calls_are_read_as_they_stand(list[i], fallbacks[i]);
    }
    lemma_all_mapped(pairs);
}

proof fn lemma_all_mapped(pairs: Seq<(Json, Seq<char>)>)
    requires
        forall|i: int| 0 <= i < pairs.len() ==> call_rule()(#[trigger] pairs[i]) is Ok,
    ensures
        try_map(pairs, call_rule()) is Ok,
    decreases pairs.len(),
{
    if pairs.len() > 0 {
        let had = pairs.drop_last();
        assert(forall|i: int| 0 <= i < had.len() ==> #[trigger] had[i] == pairs[i]);
        lemma_all_mapped(had);
        assert(call_rule()(pairs[pairs.len() - 1]) is Ok);
    }
}

/// The text of a message whose content is a list of parts is that of its parts, one after
/// the other: a part that is a text gives itself, one with a text gives that, and an image
/// gives none.
pub proof fn law_texts_of_parts_are_joined(parts: Seq<Json>, part: Json)
    ensures
        message_text(Json::Array(Seq::empty())) == Ok::<Seq<char>, Failure>(Seq::empty()),
        message_text(Json::Array(parts)) is Err ==> message_text(Json::Array(parts.push(part)))
            is Err,
        message_text(Json::Array(parts)) matches Ok(so_far) ==> {
            let after = message_text(Json::Array(parts.push(part)));
            let kind = part.text_at("type"@);
            &&& part matches Json::Text(t) ==> after == Ok::<Seq<char>, Failure>(so_far + t)
            &&& part is Object && (kind is None || kind == Some("text"@) || kind == Some(
                "input_text"@,
            ) || kind == Some("output_text"@)) ==> match part.text_at("text"@) {
                Some(t) => after == Ok::<Seq<char>, Failure>(so_far + t),
                None => after is Err,
            }
            &&& part is Object && (kind == Some("input_image"@) || kind == Some("image_url"@))
                ==> after == Ok::<Seq<char>, Failure>(so_far)
        },
{
    reveal_strlit("text");
    reveal_strlit("input_text");
    reveal_strlit("output_text");
    reveal_strlit("input_image");
    reveal_strlit("image_url");
    assert("text"@.len() == 4);
    assert("input_text"@.len() == 10);
    assert("output_text"@.len() == 11);
    assert("input_image"@.len() == 11);
    assert("image_url"@.len() == 9);
    assert("output_text"@[0] == 'o');
    assert("input_image"@[0] == 'i');
    let all = parts.push(part);
    assert(all.drop_last() =~= parts);
    if let Ok(so_far) = message_text(Json::Array(parts)) {
        assert(so_far + Seq::<char>::empty() =~= so_far);
    }
}

/// A turn stands in the history as it was: its text, its calls in order, and its reasoning.
/// A turn in which nothing was said or called leaves no message.
pub proof fn law_history_keeps_the_turn(turn: Turn)
    ensures
        history_message(turn) is None <==> turn.text.len() == 0 && turn.calls.len() == 0,
        history_message(turn) matches Some(message) ==> {
            &&& message.get("role"@) == Some(Json::Text("assistant"@))
            &&& message.get("content"@) == Some(
                if turn.text.len() > 0 {
                    Json::Text(turn.text)
                } else {
                    Json::Null
                },
            )
            &&& message.get("reasoning_content"@) == (if turn.reasoning.len() > 0 {
                Some(Json::Text(turn.reasoning))
            } else {
                None
            })
            &&& turn.calls.len() == 0 ==> message.get("tool_calls"@) is None
            &&& turn.calls.len() > 0 ==> {
                &&& message.get("tool_calls"@) matches Some(Json::Array(entries))
                &&& entries.len() == turn.calls.len()
                &&& forall|i: int|
                    0 <= i < entries.len() ==> {
                        let entry = #[trigger] entries[i];
                        &&& entry.get("id"@) == Some(Json::Text(turn.calls[i].call_id))
                        &&& entry.get("type"@) == Some(Json::Text("function"@))
                        &&& entry.get("function"@) matches Some(f)
                        &&& f.get("name"@) == Some(Json::Text(turn.calls[i].name))
                        &&& f.get("arguments"@) == Some(Json::Text(turn.calls[i].arguments))
                    }
            }
        },
{
    reveal_strlit("role");
    reveal_strlit("content");
    reveal_strlit("tool_calls");
    reveal_strlit("reasoning_content");
    reveal_strlit("id");
    reveal_strlit("type");
    reveal_strlit("function");
    reveal_strlit("name");
    reveal_strlit("arguments");
    assert("role"@.len() == 4);
    assert("content"@.len() == 7);
    assert("tool_calls"@.len() == 10);
    assert("reasoning_content"@.len() == 17);
    assert("id"@.len() == 2);
    assert("type"@.len() == 4);
    assert("function"@.len() == 8);
    assert("name"@.len() == 4);
    assert("arguments"@.len() == 9);
    assert("role"@[0] == 'r');
    assert("type"@[0] == 't');
    assert("name"@[0] == 'n');
}

} // verus!
