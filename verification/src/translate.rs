//! Translating a Responses request into a chat-completions request.

use crate::config::Settings;
use crate::conversation::{build_messages, chat_messages, has_call_members, rules_of, ChatRules};
use crate::error::{Failure, ProxyError};
use crate::fold::{lemma_try_map_items, try_map};
use crate::ids::{fresh_id, is_fresh_id};
use crate::json::{
    array_of, copy_object, copy_value, copy_values, object, object_of, Json, JsonValue, Object,
};
use crate::normalize::{
    item_rule, member_text, message_item, normal_input, normal_item, normalize_input_items,
    refused,
};
use crate::number::{float_text, JsonNumber, Num};
use crate::probe::Capabilities;
use crate::protocol::ProtocolReport;
use crate::text::{concat, concat3, same_text};
use crate::toolset::{
    carried, normalize_tool_choice, normalize_tools, upstream_choice, upstream_tools,
};
use vstd::prelude::*;
use vstd::string::*;

pub use crate::ids::unix_timestamp;
pub use crate::reasoning::{extract_first_reasoning, flatten_reasoning_value};
pub use crate::response::{
    build_cancelled_response, build_content_part, build_failed_response, build_function_call_item,
    build_in_progress_response, build_message_item, build_reasoning_item, build_response,
};
pub use crate::turn::{
    build_history_message, extract_message_text, function_item_id, message_output_offset,
    parse_assistant_turn_from_response, pre_turn_output_count, reasoning_output_offset,
    AssistantTurn, ToolCall,
};
pub use crate::usage::{merge_usage, usage_from_upstream};

verus! {

/// What the proxy keeps of a request while it is answered.
#[derive(Debug)]
pub struct RequestContext {
    pub response_id: String,
    pub reasoning_id: String,
    pub message_id: String,
    pub created_at: i64,
    pub client_model: String,
    pub upstream_model: String,
    pub stream: bool,
    pub store: bool,
    pub parallel_tool_calls: bool,
    pub instructions: Option<String>,
    pub metadata: JsonValue,
    pub tool_choice: JsonValue,
    pub tools: Vec<JsonValue>,
    pub max_output_tokens: Option<u64>,
    pub max_tool_calls: Option<u32>,
    pub hosted_output_items: Vec<JsonValue>,
    pub previous_response_id: Option<String>,
    pub truncation: String,
    pub temperature: Option<JsonNumber>,
    pub top_p: Option<JsonNumber>,
    pub skip_reasoning_output: bool,
}

/// What a [`RequestContext`] stands for.
#[verifier::ext_equal]
pub struct Context {
    pub response_id: Seq<char>,
    pub reasoning_id: Seq<char>,
    pub message_id: Seq<char>,
    pub created_at: i64,
    pub client_model: Seq<char>,
    pub upstream_model: Seq<char>,
    pub stream: bool,
    pub store: bool,
    pub parallel_tool_calls: bool,
    pub instructions: Option<Seq<char>>,
    pub metadata: Json,
    pub tool_choice: Json,
    pub tools: Seq<Json>,
    pub max_output_tokens: Option<u64>,
    pub max_tool_calls: Option<u32>,
    pub hosted_output_items: Seq<Json>,
    pub previous_response_id: Option<Seq<char>>,
    pub truncation: Seq<char>,
    pub temperature: Option<Num>,
    pub top_p: Option<Num>,
    pub skip_reasoning_output: bool,
}

/// What an optional number stands for.
pub open spec fn num_option(n: Option<JsonNumber>) -> Option<Num> {
    match n {
        Some(n) => Some(n@),
        None => None,
    }
}

impl View for RequestContext {
    type V = Context;

    open spec fn view(&self) -> Context {
        Context {
            response_id: self.response_id@,
            reasoning_id: self.reasoning_id@,
            message_id: self.message_id@,
            created_at: self.created_at,
            client_model: self.client_model@,
            upstream_model: self.upstream_model@,
            stream: self.stream,
            store: self.store,
            parallel_tool_calls: self.parallel_tool_calls,
            instructions: self.instructions.deep_view(),
            metadata: self.metadata@,
            tool_choice: self.tool_choice@,
            tools: array_of(self.tools@),
            max_output_tokens: self.max_output_tokens,
            max_tool_calls: self.max_tool_calls,
            hosted_output_items: array_of(self.hosted_output_items@),
            previous_response_id: self.previous_response_id.deep_view(),
            truncation: self.truncation@,
            temperature: num_option(self.temperature),
            top_p: num_option(self.top_p),
            skip_reasoning_output: self.skip_reasoning_output,
        }
    }
}

fn copy_option(s: &Option<String>) -> (copy: Option<String>)
    ensures
        copy.deep_view() == s.deep_view(),
{
    match s {
        Some(s) => Some(s.clone()),
        None => None,
    }
}

fn copy_number(n: &Option<JsonNumber>) -> (copy: Option<JsonNumber>)
    ensures
        num_option(copy) == num_option(*n),
{
    match n {
        Some(n) => Some(n.clone()),
        None => None,
    }
}

impl Clone for RequestContext {
    fn clone(&self) -> (copy: Self)
        ensures
            copy@ == self@,
    {
        RequestContext {
            response_id: self.response_id.clone(),
            reasoning_id: self.reasoning_id.clone(),
            message_id: self.message_id.clone(),
            created_at: self.created_at,
            client_model: self.client_model.clone(),
            upstream_model: self.upstream_model.clone(),
            stream: self.stream,
            store: self.store,
            parallel_tool_calls: self.parallel_tool_calls,
            instructions: copy_option(&self.instructions),
            metadata: self.metadata.clone(),
            tool_choice: self.tool_choice.clone(),
            tools: copy_values(&self.tools),
            max_output_tokens: self.max_output_tokens,
            max_tool_calls: self.max_tool_calls,
            hosted_output_items: copy_values(&self.hosted_output_items),
            previous_response_id: copy_option(&self.previous_response_id),
            truncation: self.truncation.clone(),
            temperature: copy_number(&self.temperature),
            top_p: copy_number(&self.top_p),
            skip_reasoning_output: self.skip_reasoning_output,
        }
    }
}

/// A translated request.
#[derive(Debug)]
pub struct TranslatedRequest {
    pub upstream_payload: JsonValue,
    pub context: RequestContext,
    pub input_items: Vec<JsonValue>,
    pub request_messages: Vec<JsonValue>,
}

/// What a [`TranslatedRequest`] stands for.
#[verifier::ext_equal]
pub struct Translation {
    pub upstream_payload: Json,
    pub context: Context,
    pub input_items: Seq<Json>,
    pub request_messages: Seq<Json>,
}

impl View for TranslatedRequest {
    type V = Translation;

    open spec fn view(&self) -> Translation {
        Translation {
            upstream_payload: self.upstream_payload@,
            context: self.context@,
            input_items: array_of(self.input_items@),
            request_messages: array_of(self.request_messages@),
        }
    }
}

impl Clone for TranslatedRequest {
    fn clone(&self) -> (copy: Self)
        ensures
            copy@ == self@,
    {
        TranslatedRequest {
            upstream_payload: self.upstream_payload.clone(),
            context: self.context.clone(),
            input_items: copy_values(&self.input_items),
            request_messages: copy_values(&self.request_messages),
        }
    }
}

/// The identifiers and the time that a response gets.
#[derive(Debug)]
pub struct ResponseIds {
    pub response_id: String,
    pub reasoning_id: String,
    pub message_id: String,
    pub created_at: i64,
}

/// What [`ResponseIds`] stand for.
pub struct Ids {
    pub response_id: Seq<char>,
    pub reasoning_id: Seq<char>,
    pub message_id: Seq<char>,
    pub created_at: i64,
}

impl View for ResponseIds {
    type V = Ids;

    open spec fn view(&self) -> Ids {
        Ids {
            response_id: self.response_id@,
            reasoning_id: self.reasoning_id@,
            message_id: self.message_id@,
            created_at: self.created_at,
        }
    }
}

impl Ids {
    /// Whether the identifiers are fresh ones, each under the prefix of its kind.
    pub open spec fn fresh(self) -> bool {
        &&& is_fresh_id(self.response_id, "resp_"@)
        &&& is_fresh_id(self.reasoning_id, "rs_"@)
        &&& is_fresh_id(self.message_id, "msg_"@)
    }
}

/// What is wrong with the text format that a request asks for, if anything.
pub open spec fn text_format_problem(payload: Map<Seq<char>, Json>) -> Option<Failure> {
    let format = match payload.get("text"@) {
        Some(text) => text.get("format"@),
        None => None,
    };
    match format {
        None => None,
        Some(f) => match f.text_at("type"@) {
            None => None,
            Some(kind) => if kind == "text"@ {
                None
            } else {
                Some(
                    Failure::BadRequest(
                        "text.format.type `"@ + kind + "` is not supported"@,
                    ),
                )
            },
        },
    }
}

/// The optional boolean under `key`.
pub open spec fn flag_at(payload: Map<Seq<char>, Json>, key: Seq<char>) -> Result<
    Option<bool>,
    Failure,
> {
    match payload.get(key) {
        Some(Json::Bool(b)) => Ok(Some(b)),
        Some(Json::Null) => Ok(None),
        None => Ok(None),
        _ => refused(key + " must be a boolean"@),
    }
}

/// The boolean under `key`, or `default`.
pub open spec fn flag_or(payload: Map<Seq<char>, Json>, key: Seq<char>, default: bool) -> Result<
    bool,
    Failure,
> {
    match flag_at(payload, key) {
        Ok(Some(b)) => Ok(b),
        Ok(None) => Ok(default),
        Err(e) => Err(e),
    }
}

/// The optional count under `key`.
pub open spec fn number_at(payload: Map<Seq<char>, Json>, key: Seq<char>) -> Result<
    Option<u64>,
    Failure,
> {
    match payload.get(key) {
        Some(Json::Num(n)) => match n.as_u64() {
            Some(v) => Ok(Some(v)),
            None => refused(key + " must be a positive integer"@),
        },
        Some(Json::Null) => Ok(None),
        None => Ok(None),
        _ => refused(key + " must be a number"@),
    }
}

/// The metadata of a response: those of the request, with a note on its fields where
/// there is something to note.
pub open spec fn response_metadata(source: Option<Json>, note: Option<Json>) -> Result<
    Json,
    Failure,
> {
    let given = match source {
        Some(Json::Object(m)) => Some(m),
        None => Some(Map::empty()),
        _ => None,
    };
    match given {
        None => refused("metadata must be a JSON object when provided"@),
        Some(m) => Ok(
            Json::Object(
                match note {
                    Some(n) => m.insert("response_proxy"@, n),
                    None => m,
                },
            ),
        ),
    }
}

/// The number under `key` in double precision.
pub open spec fn float_at(payload: Map<Seq<char>, Json>, key: Seq<char>) -> Option<Num> {
    match payload.get(key) {
        Some(Json::Num(n)) => Some(n.as_float()),
        _ => None,
    }
}

/// The members that are checked before the input is read.
pub struct Options {
    pub stream: bool,
    pub store: bool,
    pub parallel_tool_calls: bool,
    pub metadata: Json,
    pub max_output_tokens: Option<u64>,
    pub max_tool_calls: Option<u64>,
}

/// Reads the members that are checked before the input.
pub open spec fn request_options(payload: Map<Seq<char>, Json>, note: Option<Json>) -> Result<
    Options,
    Failure,
> {
    match text_format_problem(payload) {
        Some(e) => Err(e),
        None => match flag_or(payload, "stream"@, false) {
            Err(e) => Err(e),
            Ok(stream) => match flag_or(payload, "store"@, true) {
                Err(e) => Err(e),
                Ok(store) => match flag_or(payload, "parallel_tool_calls"@, true) {
                    Err(e) => Err(e),
                    Ok(parallel_tool_calls) => match response_metadata(
                        payload.get("metadata"@),
                        note,
                    ) {
                        Err(e) => Err(e),
                        Ok(metadata) => match number_at(payload, "max_output_tokens"@) {
                            Err(e) => Err(e),
                            Ok(max_output) => match number_at(payload, "max_tool_calls"@) {
                                Err(e) => Err(e),
                                Ok(max_tool_calls) => Ok(
                                    Options {
                                        stream,
                                        store,
                                        parallel_tool_calls,
                                        metadata,
                                        max_output_tokens: if max_output == Some(0u64) {
                                            None
                                        } else {
                                            max_output
                                        },
                                        max_tool_calls,
                                    },
                                ),
                            },
                        },
                    },
                },
            },
        },
    }
}

/// The body of the upstream request without what concerns tools and messages.
pub open spec fn base_body(
    payload: Map<Seq<char>, Json>,
    configured: Map<Seq<char>, Json>,
    upstream_model: Seq<char>,
    options: Options,
) -> Map<Seq<char>, Json> {
    let named = configured.insert("model"@, Json::Text(upstream_model)).insert(
        "stream"@,
        Json::Bool(options.stream),
    );
    let a = carried(named, payload, "temperature"@);
    let b = carried(a, payload, "top_p"@);
    let c = carried(b, payload, "presence_penalty"@);
    let d = carried(c, payload, "frequency_penalty"@);
    let e = carried(d, payload, "stop"@);
    let f = carried(e, payload, "user"@);
    let g = carried(f, payload, "response_format"@);
    match options.max_output_tokens {
        Some(n) => g.insert("max_tokens"@, Json::Num(Num::Unsigned(n))),
        None => g,
    }
}

/// The tools that go upstream.
pub open spec fn kept_tools(payload: Map<Seq<char>, Json>, settings: Settings) -> Result<
    Seq<Json>,
    Failure,
> {
    if settings.drop_tools {
        Ok(Seq::empty())
    } else {
        upstream_tools(payload.get("tools"@))
    }
}

/// The tool choice that the response echoes.
pub open spec fn echoed_choice(payload: Map<Seq<char>, Json>, settings: Settings) -> Json {
    if settings.drop_tools {
        Json::Text("none"@)
    } else {
        match payload.get("tool_choice"@) {
            Some(c) => c,
            None => Json::Text("auto"@),
        }
    }
}

/// The body of the upstream request.
pub open spec fn upstream_body(
    payload: Map<Seq<char>, Json>,
    settings: Settings,
    caps: Capabilities,
    upstream_model: Seq<char>,
    options: Options,
    tools: Seq<Json>,
    messages: Seq<Json>,
) -> Result<Json, Failure> {
    let base = base_body(payload, object_of(settings.upstream_body), upstream_model, options);
    match number_at(payload, "top_logprobs"@) {
        Err(e) => Err(e),
        Ok(top) => {
            let scored = match top {
                Some(n) => base.insert("logprobs"@, Json::Bool(true)).insert(
                    "top_logprobs"@,
                    Json::Num(Num::Unsigned(n)),
                ),
                None => base,
            };
            if tools.len() > 0 {
                match upstream_choice(payload.get("tool_choice"@), caps) {
                    Err(e) => Err(e),
                    Ok(choice) => Ok(
                        Json::Object(
                            scored.insert("tools"@, Json::Array(tools)).insert(
                                "tool_choice"@,
                                choice,
                            ).insert("messages"@, Json::Array(messages)),
                        ),
                    ),
                }
            } else {
                Ok(Json::Object(scored.insert("messages"@, Json::Array(messages))))
            }
        },
    }
}

/// The model that the client asks for.
pub open spec fn asked_model(payload: Map<Seq<char>, Json>, settings: Settings) -> Seq<char> {
    match member_text(payload.get("model"@)) {
        Some(m) => m,
        None => settings.upstream_model@,
    }
}

/// The context of a request.
pub open spec fn request_context(
    payload: Map<Seq<char>, Json>,
    settings: Settings,
    options: Options,
    tools: Seq<Json>,
    ids: Ids,
) -> Context {
    let client_model = asked_model(payload, settings);
    Context {
        response_id: ids.response_id,
        reasoning_id: ids.reasoning_id,
        message_id: ids.message_id,
        created_at: ids.created_at,
        client_model,
        upstream_model: settings.spec_mapped_model(Some(client_model)),
        stream: options.stream,
        store: options.store,
        parallel_tool_calls: options.parallel_tool_calls,
        instructions: member_text(payload.get("instructions"@)),
        metadata: options.metadata,
        tool_choice: echoed_choice(payload, settings),
        tools,
        max_output_tokens: options.max_output_tokens,
        max_tool_calls: match options.max_tool_calls {
            Some(n) => Some(n as u32),
            None => None,
        },
        hosted_output_items: Seq::empty(),
        previous_response_id: member_text(payload.get("previous_response_id"@)),
        truncation: match member_text(payload.get("truncation"@)) {
            Some(t) => t,
            None => "auto"@,
        },
        temperature: float_at(payload, "temperature"@),
        top_p: float_at(payload, "top_p"@),
        skip_reasoning_output: false,
    }
}

/// The translation of a request.
pub open spec fn translation(
    payload: Map<Seq<char>, Json>,
    settings: Settings,
    note: Option<Json>,
    previous: Seq<Json>,
    caps: Capabilities,
    ids: Ids,
) -> Result<Translation, Failure> {
    match request_options(payload, note) {
        Err(e) => Err(e),
        Ok(options) => match normal_input(
            payload.get("input"@),
            settings.drop_input_reasoning,
            caps.supports_image_input,
        ) {
            Err(e) => Err(e),
            Ok(items) => match kept_tools(payload, settings) {
                Err(e) => Err(e),
                Ok(tools) => match chat_messages(
                    previous,
                    items,
                    member_text(payload.get("instructions"@)),
                    rules_of(settings, caps),
                ) {
                    Err(e) => Err(e),
                    Ok(messages) => {
                        let context = request_context(payload, settings, options, tools, ids);
                        match upstream_body(
                            payload,
                            settings,
                            caps,
                            context.upstream_model,
                            options,
                            tools,
                            messages,
                        ) {
                            Err(e) => Err(e),
                            Ok(body) => Ok(
                                Translation {
                                    upstream_payload: body,
                                    context,
                                    input_items: items,
                                    request_messages: messages,
                                },
                            ),
                        }
                    },
                },
            },
        },
    }
}

/// The note on a request's fields.
pub open spec fn field_note(report: ProtocolReport) -> Option<Json> {
    if report.has_notes() {
        Some(report.fragment())
    } else {
        None
    }
}

proof fn lemma_kinds_differ()
    ensures
        "message"@ != "function_call"@,
        "message"@ != "function_call_output"@,
        "reasoning"@ != "function_call"@,
        "reasoning"@ != "function_call_output"@,
        "function_call"@ != "function_call_output"@,
        "type"@ != "role"@,
        "type"@ != "content"@,
        "type"@ != "summary"@,
        "type"@ != "text"@,
        "type"@ != "call_id"@,
        "type"@ != "name"@,
        "type"@ != "arguments"@,
        "type"@ != "output"@,
        "role"@ != "content"@,
{
    reveal_strlit("message");
    reveal_strlit("function_call");
    reveal_strlit("function_call_output");
    reveal_strlit("reasoning");
    reveal_strlit("type");
    reveal_strlit("role");
    reveal_strlit("content");
    reveal_strlit("summary");
    reveal_strlit("text");
    reveal_strlit("call_id");
    reveal_strlit("name");
    reveal_strlit("arguments");
    reveal_strlit("output");
    assert("message"@.len() == 7);
    assert("reasoning"@.len() == 9);
    assert("function_call"@.len() == 13);
    assert("function_call_output"@.len() == 20);
    assert("type"@.len() == 4);
    assert("type"@[1] == 'y');
    assert("role"@[1] == 'o');
    assert("text"@[1] == 'e');
    assert("name"@[1] == 'a');
    assert("content"@.len() == 7);
    assert("summary"@.len() == 7);
    assert("call_id"@.len() == 7);
    assert("arguments"@.len() == 9);
    assert("output"@.len() == 6);
    assert("role"@.len() == 4);
}

proof fn lemma_normal_item_members(item: Json, drop_reasoning: bool, images: bool)
    ensures
        normal_item(item, drop_reasoning, images) matches Ok(v) ==> has_call_members(v),
{
    lemma_kinds_differ();
    if let Ok(v) = normal_item(item, drop_reasoning, images) {
        let m = v->Object_0;
        assert(m.contains_key("type"@));
        assert(m.get("type"@) == Some(m["type"@]));
    }
}

/// Normalized items have the members by which they are read.
pub proof fn law_normalized_items_are_readable(
    input: Option<Json>,
    drop_reasoning: bool,
    images: bool,
)
    ensures
        normal_input(input, drop_reasoning, images) matches Ok(items) ==> forall|i: int|
            0 <= i < items.len() ==> has_call_members(#[trigger] items[i]),
{
    match input {
        Some(Json::Array(list)) => {
            let rule = item_rule(drop_reasoning, images);
            if try_map(list, rule) is Ok {
                lemma_try_map_items(list, rule);
                let items = try_map(list, rule)->Ok_0;
                assert forall|i: int| 0 <= i < items.len() implies has_call_members(
                    #[trigger] items[i],
                ) by {
                    assert(rule(list[i]) == Ok::<Json, Failure>(items[i]));
                    lemma_normal_item_members(list[i], drop_reasoning, images);
                }
            }
        },
        Some(Json::Object(m)) => {
            lemma_normal_item_members(Json::Object(m), drop_reasoning, images);
        },
        Some(Json::Text(t)) => {
            lemma_kinds_differ();
            let v = message_item("user"@, seq![crate::normalize::text_part(t)]);
            assert(v->Object_0.contains_key("type"@));
            assert(has_call_members(v));
        },
        _ => {},
    }
}

fn validate_text_format(payload: &Object) -> (r: Result<(), ProxyError>)
    ensures
        match r {
            Ok(_) => text_format_problem(object_of(*payload)) is None,
            Err(e) => text_format_problem(object_of(*payload)) == Some(e@),
        },
{
    let text = match payload.member("text") {
        Some(text) => text,
        None => return Ok(()),
    };
    let format = match text.get("format") {
        Some(format) => format,
        None => return Ok(()),
    };
    match format.text_at("type") {
        Some(kind) => if same_text(kind, "text") {
            Ok(())
        } else {
            Err(
                ProxyError::BadRequest(
                    concat3("text.format.type `", kind, "` is not supported"),
                ),
            )
        },
        None => Ok(()),
    }
}

fn optional_string(payload: &Object, key: &str) -> (s: Option<String>)
    ensures
        s.deep_view() == member_text(object_of(*payload).get(key@)),
{
    match payload.member(key) {
        Some(v) => match v.as_str() {
            Some(s) => Some(s.to_owned()),
            None => None,
        },
        None => None,
    }
}

/// The optional boolean under `key`.
pub fn optional_bool(payload: &Object, key: &str) -> (r: Result<Option<bool>, ProxyError>)
    ensures
        match r {
            Ok(b) => flag_at(object_of(*payload), key@) == Ok::<Option<bool>, Failure>(b),
            Err(e) => flag_at(object_of(*payload), key@) == Err::<Option<bool>, Failure>(e@),
        },
{
    match payload.member(key) {
        Some(JsonValue::Bool(b)) => Ok(Some(*b)),
        Some(JsonValue::Null) => Ok(None),
        None => Ok(None),
        Some(_) => Err(ProxyError::BadRequest(concat(key, " must be a boolean"))),
    }
}

fn bool_or(payload: &Object, key: &str, default: bool) -> (r: Result<bool, ProxyError>)
    ensures
        match r {
            Ok(b) => flag_or(object_of(*payload), key@, default) == Ok::<bool, Failure>(b),
            Err(e) => flag_or(object_of(*payload), key@, default) == Err::<bool, Failure>(e@),
        },
{
    match optional_bool(payload, key) {
        Ok(Some(b)) => Ok(b),
        Ok(None) => Ok(default),
        Err(e) => Err(e),
    }
}

/// The optional count under `key`.
pub fn optional_u64(payload: &Object, key: &str) -> (r: Result<Option<u64>, ProxyError>)
    ensures
        match r {
            Ok(n) => number_at(object_of(*payload), key@) == Ok::<Option<u64>, Failure>(n),
            Err(e) => number_at(object_of(*payload), key@) == Err::<Option<u64>, Failure>(e@),
        },
{
    match payload.member(key) {
        Some(JsonValue::Num(n)) => match n.as_u64() {
            Some(v) => Ok(Some(v)),
            None => Err(ProxyError::BadRequest(concat(key, " must be a positive integer"))),
        },
        Some(JsonValue::Null) => Ok(None),
        None => Ok(None),
        Some(_) => Err(ProxyError::BadRequest(concat(key, " must be a number"))),
    }
}

fn optional_float(payload: &Object, key: &str) -> (n: Option<JsonNumber>)
    ensures
        num_option(n) == float_at(object_of(*payload), key@),
{
    match payload.member(key) {
        Some(JsonValue::Num(n)) => Some(n.as_float()),
        _ => None,
    }
}

fn build_metadata(source: Option<&JsonValue>, report: &ProtocolReport) -> (r: Result<
    JsonValue,
    ProxyError,
>)
    ensures
        match r {
            Ok(v) => response_metadata(source.deep_view(), field_note(*report)) == Ok::<
                Json,
                Failure,
            >(v@),
            Err(e) => response_metadata(source.deep_view(), field_note(*report)) == Err::<
                Json,
                Failure,
            >(e@),
        },
{
    let mut metadata = match source {
        Some(JsonValue::Object(m)) => copy_object(m),
        Some(_) => return Err(
            ProxyError::bad_request("metadata must be a JSON object when provided"),
        ),
        None => object(),
    };
    if report.has_compatibility_notes() {
        metadata.set("response_proxy", report.metadata_fragment());
    }
    Ok(JsonValue::Object(metadata))
}

fn carry(to: &mut Object, from: &Object, name: &str)
    ensures
        object_of(*final(to)) == carried(object_of(*old(to)), object_of(*from), name@),
{
    if let Some(v) = from.member(name) {
        to.set(name, copy_value(v));
    }
}

/// The options of a request, read in the order in which they are checked.
struct ReadOptions {
    stream: bool,
    store: bool,
    parallel_tool_calls: bool,
    metadata: JsonValue,
    max_output_tokens: Option<u64>,
    max_tool_calls: Option<u64>,
}

impl ReadOptions {
    spec fn options(self) -> Options {
        Options {
            stream: self.stream,
            store: self.store,
            parallel_tool_calls: self.parallel_tool_calls,
            metadata: self.metadata@,
            max_output_tokens: self.max_output_tokens,
            max_tool_calls: self.max_tool_calls,
        }
    }
}

fn read_options(payload: &Object, report: &ProtocolReport) -> (r: Result<ReadOptions, ProxyError>)
    ensures
        match r {
            Ok(o) => request_options(object_of(*payload), field_note(*report)) == Ok::<
                Options,
                Failure,
            >(o.options()),
            Err(e) => request_options(object_of(*payload), field_note(*report)) == Err::<
                Options,
                Failure,
            >(e@),
        },
{
    match validate_text_format(payload) {
        Ok(_) => {},
        Err(e) => return Err(e),
    }
    let stream = match bool_or(payload, "stream", false) {
        Ok(b) => b,
        Err(e) => return Err(e),
    };
    let store = match bool_or(payload, "store", true) {
        Ok(b) => b,
        Err(e) => return Err(e),
    };
    let parallel_tool_calls = match bool_or(payload, "parallel_tool_calls", true) {
        Ok(b) => b,
        Err(e) => return Err(e),
    };
    let metadata = match build_metadata(payload.member("metadata"), report) {
        Ok(m) => m,
        Err(e) => return Err(e),
    };
    let max_output_tokens = match optional_u64(payload, "max_output_tokens") {
        Ok(Some(0)) => None,
        Ok(n) => n,
        Err(e) => return Err(e),
    };
    let max_tool_calls = match optional_u64(payload, "max_tool_calls") {
        Ok(n) => n,
        Err(e) => return Err(e),
    };
    Ok(
        ReadOptions {
            stream,
            store,
            parallel_tool_calls,
            metadata,
            max_output_tokens,
            max_tool_calls,
        },
    )
}

fn build_base(
    payload: &Object,
    configured: &Object,
    upstream_model: &str,
    options: &ReadOptions,
) -> (body: Object)
    ensures
        object_of(body) == base_body(
            object_of(*payload),
            object_of(*configured),
            upstream_model@,
            options.options(),
        ),
{
    let mut body = copy_object(configured);
    body.set("model", JsonValue::text(upstream_model));
    body.set("stream", JsonValue::Bool(options.stream));
    carry(&mut body, payload, "temperature");
    carry(&mut body, payload, "top_p");
    carry(&mut body, payload, "presence_penalty");
    carry(&mut body, payload, "frequency_penalty");
    carry(&mut body, payload, "stop");
    carry(&mut body, payload, "user");
    carry(&mut body, payload, "response_format");
    if let Some(n) = options.max_output_tokens {
        body.set("max_tokens", JsonValue::number(n));
    }
    body
}

/// Translates a request whose response gets the given identifiers.
pub fn translate_request_with(
    payload: &Object,
    settings: &Settings,
    report: &ProtocolReport,
    previous_messages: &Vec<JsonValue>,
    capabilities: &Capabilities,
    ids: ResponseIds,
) -> (r: Result<TranslatedRequest, ProxyError>)
    ensures
        crate::error::outcome(r) == translation(
            object_of(*payload),
            *settings,
            field_note(*report),
            array_of(previous_messages@),
            *capabilities,
            ids@,
        ),
{
    let options = match read_options(payload, report) {
        Ok(options) => options,
        Err(e) => return Err(e),
    };
    let client_model = match optional_string(payload, "model") {
        Some(model) => model,
        None => settings.upstream_model.clone(),
    };
    let upstream_model = settings.mapped_model(Some(client_model.as_str()));
    let instructions = optional_string(payload, "instructions");
    let input_items = match normalize_input_items(
        payload.member("input"),
        settings,
        capabilities,
    ) {
        Ok(items) => items,
        Err(e) => return Err(e),
    };
    let tools = if settings.drop_tools {
        let none: Vec<JsonValue> = Vec::new();
        assert(array_of(none@) =~= Seq::empty());
        none
    } else {
        match normalize_tools(payload.member("tools")) {
            Ok(tools) => tools,
            Err(e) => return Err(e),
        }
    };
    let tool_choice = if settings.drop_tools {
        JsonValue::text("none")
    } else {
        match payload.member("tool_choice") {
            Some(choice) => copy_value(choice),
            None => JsonValue::text("auto"),
        }
    };
    proof {
        law_normalized_items_are_readable(
            object_of(*payload).get("input"@),
            settings.drop_input_reasoning,
            capabilities.supports_image_input,
        );
    }
    let asked = match &instructions {
        Some(text) => Some(text.as_str()),
        None => None,
    };
    let messages = match build_messages(
        previous_messages,
        &input_items,
        asked,
        settings,
        capabilities,
    ) {
        Ok(messages) => messages,
        Err(e) => return Err(e),
    };
    let mut upstream = build_base(
        payload,
        &settings.upstream_body,
        upstream_model.as_str(),
        &options,
    );
    match optional_u64(payload, "top_logprobs") {
        Ok(Some(n)) => {
            upstream.set("logprobs", JsonValue::Bool(true));
            upstream.set("top_logprobs", JsonValue::number(n));
        },
        Ok(None) => {},
        Err(e) => return Err(e),
    }
    if tools.len() > 0 {
        let choice = match normalize_tool_choice(payload.member("tool_choice"), capabilities) {
            Ok(choice) => choice,
            Err(e) => return Err(e),
        };
        upstream.set("tools", JsonValue::Array(copy_values(&tools)));
        upstream.set("tool_choice", choice);
    }
    upstream.set("messages", JsonValue::Array(copy_values(&messages)));
    let hosted_output_items: Vec<JsonValue> = Vec::new();
    assert(array_of(hosted_output_items@) =~= Seq::empty());
    let context = RequestContext {
        response_id: ids.response_id,
        reasoning_id: ids.reasoning_id,
        message_id: ids.message_id,
        created_at: ids.created_at,
        client_model,
        upstream_model,
        stream: options.stream,
        store: options.store,
        parallel_tool_calls: options.parallel_tool_calls,
        instructions,
        metadata: options.metadata,
        tool_choice,
        tools,
        max_output_tokens: options.max_output_tokens,
        max_tool_calls: match options.max_tool_calls {
            Some(n) => Some(n as u32),
            None => None,
        },
        hosted_output_items,
        previous_response_id: optional_string(payload, "previous_response_id"),
        truncation: match optional_string(payload, "truncation") {
            Some(t) => t,
            None => "auto".to_owned(),
        },
        temperature: optional_float(payload, "temperature"),
        top_p: optional_float(payload, "top_p"),
        skip_reasoning_output: false,
    };
    Ok(
        TranslatedRequest {
            upstream_payload: JsonValue::Object(upstream),
            context,
            input_items,
            request_messages: messages,
        },
    )
}

/// Fresh identifiers for a response that is created now.
pub fn fresh_response_ids() -> (ids: ResponseIds)
    ensures
        ids@.fresh(),
{
    ResponseIds {
        response_id: fresh_id("resp_"),
        reasoning_id: fresh_id("rs_"),
        message_id: fresh_id("msg_"),
        created_at: unix_timestamp(),
    }
}

/// Translates a request. Whatever identifiers its response gets, they are fresh, and
/// whether the request is refused does not depend on them.
pub fn translate_request(
    payload: &Object,
    settings: &Settings,
    report: &ProtocolReport,
    previous_messages: &Vec<JsonValue>,
    capabilities: &Capabilities,
) -> (r: Result<TranslatedRequest, ProxyError>)
    ensures
        exists|ids: Ids|
            ids.fresh() && crate::error::outcome(r) == #[trigger] translation(
                object_of(*payload),
                *settings,
                field_note(*report),
                array_of(previous_messages@),
                *capabilities,
                ids,
            ),
{
    let ids = fresh_response_ids();
    let ghost given = ids@;
    let r = translate_request_with(
        payload,
        settings,
        report,
        previous_messages,
        capabilities,
        ids,
    );
    assert(given.fresh());
    r
}

/// Where tools are dropped, neither tools nor a tool choice of the request go upstream,
/// and the response says that no tool was chosen.
pub proof fn law_dropped_tools_stay_here(
    payload: Map<Seq<char>, Json>,
    settings: Settings,
    note: Option<Json>,
    previous: Seq<Json>,
    caps: Capabilities,
    ids: Ids,
)
    requires
        settings.drop_tools,
        translation(payload, settings, note, previous, caps, ids) is Ok,
    ensures
        ({
            let t = translation(payload, settings, note, previous, caps, ids)->Ok_0;
            &&& t.context.tools.len() == 0
            &&& t.context.tool_choice == Json::Text("none"@)
            &&& t.upstream_payload.get("tools"@) == object_of(settings.upstream_body).get("tools"@)
            &&& t.upstream_payload.get("tool_choice"@) == object_of(settings.upstream_body).get(
                "tool_choice"@,
            )
        }),
{
    lemma_key_apart("tools"@);
    lemma_key_apart("tool_choice"@);
}

proof fn lemma_key_apart(k: Seq<char>)
    requires
        k == "tools"@ || k == "tool_choice"@,
    ensures
        k != "model"@,
        k != "stream"@,
        k != "temperature"@,
        k != "top_p"@,
        k != "presence_penalty"@,
        k != "frequency_penalty"@,
        k != "stop"@,
        k != "user"@,
        k != "response_format"@,
        k != "max_tokens"@,
        k != "logprobs"@,
        k != "top_logprobs"@,
        k != "messages"@,
{
    reveal_strlit("tools");
    reveal_strlit("tool_choice");
    reveal_strlit("model");
    reveal_strlit("stream");
    reveal_strlit("temperature");
    reveal_strlit("top_p");
    reveal_strlit("presence_penalty");
    reveal_strlit("frequency_penalty");
    reveal_strlit("stop");
    reveal_strlit("user");
    reveal_strlit("response_format");
    reveal_strlit("max_tokens");
    reveal_strlit("logprobs");
    reveal_strlit("top_logprobs");
    reveal_strlit("messages");
    assert("tools"@.len() == 5 && "tool_choice"@.len() == 11);
    assert("model"@[0] == 'm' && "tools"@[0] == 't');
    assert("temperature"@[1] == 'e' && "tool_choice"@[1] == 'o');
    assert("top_p"@[2] == 'p' && "tools"@[2] == 'o');
    assert("stop"@.len() == 4 && "user"@.len() == 4 && "stream"@.len() == 6);
    assert("presence_penalty"@.len() == 16 && "frequency_penalty"@.len() == 17);
    assert("response_format"@.len() == 15 && "max_tokens"@.len() == 10);
    assert("logprobs"@.len() == 8 && "top_logprobs"@.len() == 12 && "messages"@.len() == 8);
}

/// The messages that go upstream are those that are kept for the history.
pub proof fn law_sent_messages_are_kept(
    payload: Map<Seq<char>, Json>,
    settings: Settings,
    note: Option<Json>,
    previous: Seq<Json>,
    caps: Capabilities,
    ids: Ids,
)
    requires
        translation(payload, settings, note, previous, caps, ids) is Ok,
    ensures
        translation(payload, settings, note, previous, caps, ids)->Ok_0.upstream_payload.get(
            "messages"@,
        ) == Some(
            Json::Array(
                translation(payload, settings, note, previous, caps, ids)->Ok_0.request_messages,
            ),
        ),
{
}

/// The upstream is asked for the model that the settings map the client's model to, and
/// for a stream where the client asks for one. The response names the client's model.
pub proof fn law_models_are_mapped(
    payload: Map<Seq<char>, Json>,
    settings: Settings,
    note: Option<Json>,
    previous: Seq<Json>,
    caps: Capabilities,
    ids: Ids,
)
    requires
        translation(payload, settings, note, previous, caps, ids) is Ok,
    ensures
        ({
            let t = translation(payload, settings, note, previous, caps, ids)->Ok_0;
            let asked = asked_model(payload, settings);
            &&& t.upstream_payload.get("model"@) == Some(
                Json::Text(settings.spec_mapped_model(Some(asked))),
            )
            &&& t.upstream_payload.get("stream"@) == Some(Json::Bool(t.context.stream))
            &&& t.context.client_model == asked
            &&& t.context.upstream_model == settings.spec_mapped_model(Some(asked))
        }),
{
    reveal_strlit("model");
    reveal_strlit("stream");
    reveal_strlit("temperature");
    reveal_strlit("top_p");
    reveal_strlit("presence_penalty");
    reveal_strlit("frequency_penalty");
    reveal_strlit("stop");
    reveal_strlit("user");
    reveal_strlit("response_format");
    reveal_strlit("max_tokens");
    reveal_strlit("logprobs");
    reveal_strlit("top_logprobs");
    reveal_strlit("tools");
    reveal_strlit("tool_choice");
    reveal_strlit("messages");
    assert("model"@.len() == 5 && "stream"@.len() == 6 && "temperature"@.len() == 11);
    assert("model"@[0] == 'm' && "top_p"@[0] == 't' && "tools"@[0] == 't');
    assert("top_p"@.len() == 5 && "tools"@.len() == 5);
    assert("presence_penalty"@.len() == 16 && "frequency_penalty"@.len() == 17);
    assert("stop"@.len() == 4 && "user"@.len() == 4 && "response_format"@.len() == 15);
    assert("max_tokens"@.len() == 10 && "logprobs"@.len() == 8 && "top_logprobs"@.len() == 12);
    assert("tool_choice"@.len() == 11 && "messages"@.len() == 8);
}

proof fn lemma_body_keys()
    ensures
        "model"@ != "stream"@,
        "model"@ != "temperature"@,
        "model"@ != "top_p"@,
        "model"@ != "presence_penalty"@,
        "model"@ != "frequency_penalty"@,
        "model"@ != "stop"@,
        "model"@ != "user"@,
        "model"@ != "response_format"@,
        "model"@ != "max_tokens"@,
        "model"@ != "logprobs"@,
        "model"@ != "top_logprobs"@,
        "model"@ != "tools"@,
        "model"@ != "tool_choice"@,
        "model"@ != "messages"@,
        "stream"@ != "temperature"@,
        "stream"@ != "top_p"@,
        "stream"@ != "presence_penalty"@,
        "stream"@ != "frequency_penalty"@,
        "stream"@ != "stop"@,
        "stream"@ != "user"@,
        "stream"@ != "response_format"@,
        "stream"@ != "max_tokens"@,
        "stream"@ != "logprobs"@,
        "stream"@ != "top_logprobs"@,
        "stream"@ != "tools"@,
        "stream"@ != "tool_choice"@,
        "stream"@ != "messages"@,
        "temperature"@ != "top_p"@,
        "temperature"@ != "presence_penalty"@,
        "temperature"@ != "frequency_penalty"@,
        "temperature"@ != "stop"@,
        "temperature"@ != "user"@,
        "temperature"@ != "response_format"@,
        "temperature"@ != "max_tokens"@,
        "temperature"@ != "logprobs"@,
        "temperature"@ != "top_logprobs"@,
        "temperature"@ != "tools"@,
        "temperature"@ != "tool_choice"@,
        "temperature"@ != "messages"@,
        "top_p"@ != "presence_penalty"@,
        "top_p"@ != "frequency_penalty"@,
        "top_p"@ != "stop"@,
        "top_p"@ != "user"@,
        "top_p"@ != "response_format"@,
        "top_p"@ != "max_tokens"@,
        "top_p"@ != "logprobs"@,
        "top_p"@ != "top_logprobs"@,
        "top_p"@ != "tools"@,
        "top_p"@ != "tool_choice"@,
        "top_p"@ != "messages"@,
        "presence_penalty"@ != "frequency_penalty"@,
        "presence_penalty"@ != "stop"@,
        "presence_penalty"@ != "user"@,
        "presence_penalty"@ != "response_format"@,
        "presence_penalty"@ != "max_tokens"@,
        "presence_penalty"@ != "logprobs"@,
        "presence_penalty"@ != "top_logprobs"@,
        "presence_penalty"@ != "tools"@,
        "presence_penalty"@ != "tool_choice"@,
        "presence_penalty"@ != "messages"@,
        "frequency_penalty"@ != "stop"@,
        "frequency_penalty"@ != "user"@,
        "frequency_penalty"@ != "response_format"@,
        "frequency_penalty"@ != "max_tokens"@,
        "frequency_penalty"@ != "logprobs"@,
        "frequency_penalty"@ != "top_logprobs"@,
        "frequency_penalty"@ != "tools"@,
        "frequency_penalty"@ != "tool_choice"@,
        "frequency_penalty"@ != "messages"@,
        "stop"@ != "user"@,
        "stop"@ != "response_format"@,
        "stop"@ != "max_tokens"@,
        "stop"@ != "logprobs"@,
        "stop"@ != "top_logprobs"@,
        "stop"@ != "tools"@,
        "stop"@ != "tool_choice"@,
        "stop"@ != "messages"@,
        "user"@ != "response_format"@,
        "user"@ != "max_tokens"@,
        "user"@ != "logprobs"@,
        "user"@ != "top_logprobs"@,
        "user"@ != "tools"@,
        "user"@ != "tool_choice"@,
        "user"@ != "messages"@,
        "response_format"@ != "max_tokens"@,
        "response_format"@ != "logprobs"@,
        "response_format"@ != "top_logprobs"@,
        "response_format"@ != "tools"@,
        "response_format"@ != "tool_choice"@,
        "response_format"@ != "messages"@,
        "max_tokens"@ != "logprobs"@,
        "max_tokens"@ != "top_logprobs"@,
        "max_tokens"@ != "tools"@,
        "max_tokens"@ != "tool_choice"@,
        "max_tokens"@ != "messages"@,
        "logprobs"@ != "top_logprobs"@,
        "logprobs"@ != "tools"@,
        "logprobs"@ != "tool_choice"@,
        "logprobs"@ != "messages"@,
        "top_logprobs"@ != "tools"@,
        "top_logprobs"@ != "tool_choice"@,
        "top_logprobs"@ != "messages"@,
        "tools"@ != "tool_choice"@,
        "tools"@ != "messages"@,
        "tool_choice"@ != "messages"@,
{
    reveal_strlit("model");
    reveal_strlit("stream");
    reveal_strlit("temperature");
    reveal_strlit("top_p");
    reveal_strlit("presence_penalty");
    reveal_strlit("frequency_penalty");
    reveal_strlit("stop");
    reveal_strlit("user");
    reveal_strlit("response_format");
    reveal_strlit("max_tokens");
    reveal_strlit("logprobs");
    reveal_strlit("top_logprobs");
    reveal_strlit("tools");
    reveal_strlit("tool_choice");
    reveal_strlit("messages");
    assert("model"@.len() == 5);
    assert("stream"@.len() == 6);
    assert("temperature"@.len() == 11);
    assert("top_p"@.len() == 5);
    assert("presence_penalty"@.len() == 16);
    assert("frequency_penalty"@.len() == 17);
    assert("stop"@.len() == 4);
    assert("user"@.len() == 4);
    assert("response_format"@.len() == 15);
    assert("max_tokens"@.len() == 10);
    assert("logprobs"@.len() == 8);
    assert("top_logprobs"@.len() == 12);
    assert("tools"@.len() == 5);
    assert("tool_choice"@.len() == 11);
    assert("messages"@.len() == 8);
    assert("model"@[0] == 'm');
    assert("top_p"@[0] == 't');
    assert("tools"@[0] == 't');
    assert("temperature"@[1] == 'e');
    assert("tool_choice"@[1] == 'o');
    assert("top_p"@[2] == 'p');
    assert("tools"@[2] == 'o');
    assert("stop"@[0] == 's');
    assert("user"@[0] == 'u');
    assert("logprobs"@[0] == 'l');
    assert("messages"@[0] == 'm');
}

/// Whether a member of a request is passed on to the upstream as it is.
pub open spec fn is_passed_on(key: Seq<char>) -> bool {
    key == "temperature"@ || key == "top_p"@ || key == "presence_penalty"@ || key
        == "frequency_penalty"@ || key == "stop"@ || key == "user"@ || key == "response_format"@
}

/// Whether a member of an upstream request is set by the proxy.
pub open spec fn is_set_here(key: Seq<char>) -> bool {
    key == "model"@ || key == "stream"@ || key == "max_tokens"@ || key == "logprobs"@ || key
        == "top_logprobs"@ || key == "tools"@ || key == "tool_choice"@ || key == "messages"@
}

/// What the client says about sampling goes upstream as it is, and what it does not say is
/// left to the configured members. Those that the proxy has nothing to do with go upstream
/// as they are configured.
pub proof fn law_sampling_options_are_passed_on(
    payload: Map<Seq<char>, Json>,
    settings: Settings,
    note: Option<Json>,
    previous: Seq<Json>,
    caps: Capabilities,
    ids: Ids,
    key: Seq<char>,
)
    requires
        translation(payload, settings, note, previous, caps, ids) is Ok,
    ensures
        ({
            let body = translation(
                payload,
                settings,
                note,
                previous,
                caps,
                ids,
            )->Ok_0.upstream_payload;
            let configured = object_of(settings.upstream_body);
            &&& is_passed_on(key) && payload.get(key) is Some ==> body.get(key) == payload.get(key)
            &&& is_passed_on(key) && payload.get(key) is None ==> body.get(key) == configured.get(
                key,
            )
            &&& !is_passed_on(key) && !is_set_here(key) ==> body.get(key) == configured.get(key)
        }),
{
    lemma_body_keys();
}

/// The number under `key`, where it is a count.
pub open spec fn count_under(payload: Map<Seq<char>, Json>, key: Seq<char>) -> Option<u64> {
    match payload.get(key) {
        Some(Json::Num(Num::Unsigned(n))) => Some(n),
        _ => None,
    }
}

/// The limit on the output goes upstream under the name that it has there, unless it is
/// nought; so does the number of likely tokens. Without them the configured members stay.
pub proof fn law_limits_go_upstream(
    payload: Map<Seq<char>, Json>,
    settings: Settings,
    note: Option<Json>,
    previous: Seq<Json>,
    caps: Capabilities,
    ids: Ids,
)
    requires
        translation(payload, settings, note, previous, caps, ids) is Ok,
    ensures
        ({
            let t = translation(payload, settings, note, previous, caps, ids)->Ok_0;
            let body = t.upstream_payload;
            let configured = object_of(settings.upstream_body);
            let limit = count_under(payload, "max_output_tokens"@);
            let likely = count_under(payload, "top_logprobs"@);
            &&& limit is Some && limit->0 > 0 ==> body.get("max_tokens"@) == Some(
                Json::Num(Num::Unsigned(limit->0)),
            ) && t.context.max_output_tokens == limit
            &&& limit is None || limit == Some(0u64) ==> body.get("max_tokens"@) == configured.get(
                "max_tokens"@,
            ) && t.context.max_output_tokens is None
            &&& likely matches Some(n) ==> body.get("top_logprobs"@) == Some(
                Json::Num(Num::Unsigned(n)),
            ) && body.get("logprobs"@) == Some(Json::Bool(true))
            &&& likely is None ==> body.get("top_logprobs"@) == configured.get("top_logprobs"@)
                && body.get("logprobs"@) == configured.get("logprobs"@)
        }),
{
    lemma_body_keys();
}

/// Tools go upstream where there are any, with the tool choice; the tools are those of the
/// response, and the messages those of the input behind the history.
pub proof fn law_tools_and_messages_go_upstream(
    payload: Map<Seq<char>, Json>,
    settings: Settings,
    note: Option<Json>,
    previous: Seq<Json>,
    caps: Capabilities,
    ids: Ids,
)
    requires
        translation(payload, settings, note, previous, caps, ids) is Ok,
    ensures
        ({
            let t = translation(payload, settings, note, previous, caps, ids)->Ok_0;
            let body = t.upstream_payload;
            &&& !settings.drop_tools ==> upstream_tools(payload.get("tools"@)) == Ok::<
                Seq<Json>,
                Failure,
            >(t.context.tools)
            &&& t.context.tools.len() > 0 ==> {
                &&& body.get("tools"@) == Some(Json::Array(t.context.tools))
                &&& body.get("tool_choice"@) matches Some(choice)
                &&& upstream_choice(payload.get("tool_choice"@), caps) == Ok::<Json, Failure>(
                    choice,
                )
            }
            &&& body.get("messages"@) == Some(Json::Array(t.request_messages))
            &&& normal_input(
                payload.get("input"@),
                settings.drop_input_reasoning,
                caps.supports_image_input,
            ) == Ok::<Seq<Json>, Failure>(t.input_items)
            &&& chat_messages(
                previous,
                t.input_items,
                Json::Object(payload).text_at("instructions"@),
                ChatRules {
                    drop_reasoning: settings.drop_input_reasoning,
                    drop_tools: settings.drop_tools,
                    keep_reasoning: caps.supports_reasoning_content,
                },
            ) == Ok::<Seq<Json>, Failure>(t.request_messages)
        }),
{
    lemma_body_keys();
}

/// The flag under `key`, or what holds where the client says nothing.
pub open spec fn flag_under(payload: Map<Seq<char>, Json>, key: Seq<char>, unsaid: bool) -> bool {
    match payload.get(key) {
        Some(Json::Bool(b)) => b,
        _ => unsaid,
    }
}

/// The context keeps what the client asked for. What it does not say has its documented
/// value: no stream, the response is kept, calls may be made side by side.
pub proof fn law_context_keeps_the_request(
    payload: Map<Seq<char>, Json>,
    settings: Settings,
    note: Option<Json>,
    previous: Seq<Json>,
    caps: Capabilities,
    ids: Ids,
    key: Seq<char>,
)
    requires
        translation(payload, settings, note, previous, caps, ids) is Ok,
    ensures
        ({
            let t = translation(payload, settings, note, previous, caps, ids)->Ok_0;
            let c = t.context;
            let v = Json::Object(payload);
            &&& c.response_id == ids.response_id
            &&& c.reasoning_id == ids.reasoning_id
            &&& c.message_id == ids.message_id
            &&& c.created_at == ids.created_at
            &&& c.stream == flag_under(payload, "stream"@, false)
            &&& c.store == flag_under(payload, "store"@, true)
            &&& c.parallel_tool_calls == flag_under(payload, "parallel_tool_calls"@, true)
            &&& c.instructions == v.text_at("instructions"@)
            &&& c.previous_response_id == v.text_at("previous_response_id"@)
            &&& c.truncation == (match v.text_at("truncation"@) {
                Some(text) => text,
                None => "auto"@,
            })
            &&& c.max_tool_calls == (match count_under(payload, "max_tool_calls"@) {
                Some(n) => Some(n as u32),
                None => None,
            })
            &&& c.hosted_output_items.len() == 0
            &&& !c.skip_reasoning_output
            &&& !settings.drop_tools ==> c.tool_choice == (match payload.get("tool_choice"@) {
                Some(choice) => choice,
                None => Json::Text("auto"@),
            })
            &&& c.metadata is Object
            &&& note matches Some(n) ==> c.metadata.get("response_proxy"@) == Some(n)
            &&& key != "response_proxy"@ || note is None ==> c.metadata.get(key) == (
            match payload.get("metadata"@) {
                Some(given) => given.get(key),
                None => None,
            })
            &&& c.temperature == (match payload.get("temperature"@) {
                Some(Json::Num(n)) => Some(Num::Other(float_text(n.text()))),
                _ => None,
            })
            &&& c.top_p == (match payload.get("top_p"@) {
                Some(Json::Num(n)) => Some(Num::Other(float_text(n.text()))),
                _ => None,
            })
        }),
{
}

/// The client's model is looked up among the aliases; without an alias the configured model
/// is asked for. The response names the model as the client did.
pub proof fn law_aliases_are_followed(
    payload: Map<Seq<char>, Json>,
    settings: Settings,
    note: Option<Json>,
    previous: Seq<Json>,
    caps: Capabilities,
    ids: Ids,
)
    requires
        translation(payload, settings, note, previous, caps, ids) is Ok,
    ensures
        ({
            let t = translation(payload, settings, note, previous, caps, ids)->Ok_0;
            let asked = match Json::Object(payload).text_at("model"@) {
                Some(name) => name,
                None => settings.upstream_model@,
            };
            &&& t.context.client_model == asked
            &&& settings.model_aliases@.contains_key(asked) ==> t.upstream_payload.get("model"@)
                == Some(Json::Text(settings.model_aliases@[asked]@))
            &&& !settings.model_aliases@.contains_key(asked) ==> t.upstream_payload.get("model"@)
                == Some(Json::Text(settings.upstream_model@))
            &&& t.upstream_payload.get("stream"@) == Some(
                Json::Bool(flag_under(payload, "stream"@, false)),
            )
        }),
{
    law_models_are_mapped(payload, settings, note, previous, caps, ids);
}

/// Whether a member is left out, null, or a boolean.
pub open spec fn is_flag(member: Option<Json>) -> bool {
    member is None || member->0 is Null || member->0 is Bool
}

/// Whether a member is left out, null, or a count.
pub open spec fn is_count(member: Option<Json>) -> bool {
    member is None || member->0 is Null || (member->0 matches Json::Num(Num::Unsigned(_)))
}

/// Whether the text format that a request asks for is plain text.
pub open spec fn asks_for_plain_text(payload: Map<Seq<char>, Json>) -> bool {
    match payload.get("text"@) {
        Some(text) => match text.get("format"@) {
            Some(format) => format.text_at("type"@) is None || format.text_at("type"@) == Some(
                "text"@,
            ),
            None => true,
        },
        None => true,
    }
}

/// A request is taken exactly where its options are of the right kinds, its input and its
/// tools can be read, and its tool choice can be made where there are tools.
pub proof fn law_requests_are_taken_or_refused(
    payload: Map<Seq<char>, Json>,
    settings: Settings,
    note: Option<Json>,
    previous: Seq<Json>,
    caps: Capabilities,
    ids: Ids,
)
    ensures
        ({
            let items = normal_input(
                payload.get("input"@),
                settings.drop_input_reasoning,
                caps.supports_image_input,
            );
            let tools = if settings.drop_tools {
                Ok(Seq::empty())
            } else {
                upstream_tools(payload.get("tools"@))
            };
            translation(payload, settings, note, previous, caps, ids) is Ok <==> {
                &&& asks_for_plain_text(payload)
                &&& is_flag(payload.get("stream"@))
                &&& is_flag(payload.get("store"@))
                &&& is_flag(payload.get("parallel_tool_calls"@))
                &&& payload.get("metadata"@) is None || payload.get("metadata"@)->0 is Object
                &&& is_count(payload.get("max_output_tokens"@))
                &&& is_count(payload.get("max_tool_calls"@))
                &&& is_count(payload.get("top_logprobs"@))
                &&& items is Ok
                &&& tools is Ok
                &&& chat_messages(
                    previous,
                    items->Ok_0,
                    Json::Object(payload).text_at("instructions"@),
                    rules_of(settings, caps),
                ) is Ok
                &&& tools->Ok_0.len() > 0 ==> upstream_choice(payload.get("tool_choice"@), caps)
                    is Ok
            }
        }),
{
}

/// A response tells how the fields of its request were treated where some of them are not
/// plainly supported, and says nothing of it otherwise.
pub proof fn law_notes_are_made_on_unusual_fields(report: ProtocolReport)
    ensures
        report.emulated_fields@.len() > 0 || report.unsupported_fields@.len() > 0 ==> field_note(
            report,
        ) == Some(report.fragment()),
        report.emulated_fields@.len() == 0 && report.unsupported_fields@.len() == 0 ==> field_note(
            report,
        ) is None,
{
}

} // verus!
