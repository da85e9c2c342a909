//! The responses that the proxy gives.

use crate::json::{array_of, copy_value, copy_values, object, Json, JsonValue, Object};
use crate::number::{num_of_i64, JsonNumber, Num};
use crate::translate::{num_option, Context, RequestContext};
use crate::turn::{calls_of, function_item_id, AssistantTurn, Call, ToolCall, Turn};
use crate::conversation::push_value;
use crate::usage::{empty_usage, upstream_usage, usage_value};
use vstd::prelude::*;
use vstd::string::*;

verus! {

/// An optional text as JSON.
pub open spec fn text_or_null(t: Option<Seq<char>>) -> Json {
    match t {
        Some(t) => Json::Text(t),
        None => Json::Null,
    }
}

/// An optional number as JSON.
pub open spec fn num_or_null(n: Option<Num>) -> Json {
    match n {
        Some(n) => Json::Num(n),
        None => Json::Null,
    }
}

/// An optional count as JSON.
pub open spec fn count_or_null(n: Option<u64>) -> Json {
    match n {
        Some(n) => Json::Num(Num::Unsigned(n)),
        None => Json::Null,
    }
}

/// The reasoning item of an output.
pub open spec fn reasoning_output(id: Seq<char>, status: Seq<char>, text: Seq<char>) -> Json {
    Json::Object(
        map![
            "id"@ => Json::Text(id),
            "type"@ => Json::Text("reasoning"@),
            "status"@ => Json::Text(status),
            "summary"@ => Json::Array(
                seq![
                    Json::Object(
                        map![
                            "type"@ => Json::Text("summary_text"@),
                            "text"@ => Json::Text(text),
                        ],
                    ),
                ],
            ),
        ],
    )
}

/// The content part of a message item.
pub open spec fn content_part(text: Seq<char>) -> Json {
    Json::Object(
        map![
            "type"@ => Json::Text("output_text"@),
            "text"@ => Json::Text(text),
            "annotations"@ => Json::Array(Seq::empty()),
            "logprobs"@ => Json::Array(Seq::empty()),
        ],
    )
}

/// The message item of an output.
pub open spec fn message_output(id: Seq<char>, status: Seq<char>, text: Seq<char>) -> Json {
    Json::Object(
        map![
            "id"@ => Json::Text(id),
            "type"@ => Json::Text("message"@),
            "status"@ => Json::Text(status),
            "role"@ => Json::Text("assistant"@),
            "phase"@ => Json::Text("final_answer"@),
            "content"@ => Json::Array(seq![content_part(text)]),
        ],
    )
}

/// The function call item of an output.
pub open spec fn call_output(call: Call, status: Seq<char>) -> Json {
    Json::Object(
        map![
            "id"@ => Json::Text("fc_"@ + call.call_id),
            "type"@ => Json::Text("function_call"@),
            "call_id"@ => Json::Text(call.call_id),
            "name"@ => Json::Text(call.name),
            "arguments"@ => Json::Text(call.arguments),
            "status"@ => Json::Text(status),
        ],
    )
}

/// The output of a response: the items of hosted tools, the reasoning, the message and
/// the calls.
pub open spec fn output_items(context: Context, turn: Turn, status: Seq<char>) -> Seq<Json> {
    let hosted = context.hosted_output_items;
    let thought = if !context.skip_reasoning_output && turn.reasoning.len() > 0 {
        hosted.push(reasoning_output(context.reasoning_id, status, turn.reasoning))
    } else {
        hosted
    };
    let said = if turn.has_message() {
        thought.push(message_output(context.message_id, status, turn.text))
    } else {
        thought
    };
    said + Seq::new(turn.calls.len(), |i: int| call_output(turn.calls[i], status))
}

/// The parts in which responses differ.
pub struct Answer {
    pub completed_at: Json,
    pub status: Seq<char>,
    pub error: Json,
    pub incomplete_details: Json,
    pub output: Seq<Json>,
    pub output_text: Seq<char>,
    pub usage: Json,
}

/// The text format of a response.
pub open spec fn plain_text_format() -> Json {
    Json::Object(
        map!["format"@ => Json::Object(map!["type"@ => Json::Text("text"@)])],
    )
}

/// A response.
pub open spec fn response_value(context: Context, answer: Answer) -> Json {
    Json::Object(
        map![
            "id"@ => Json::Text(context.response_id),
            "object"@ => Json::Text("response"@),
            "created_at"@ => Json::Num(num_of_i64(context.created_at)),
            "completed_at"@ => answer.completed_at,
            "status"@ => Json::Text(answer.status),
            "error"@ => answer.error,
            "incomplete_details"@ => answer.incomplete_details,
            "instructions"@ => text_or_null(context.instructions),
            "max_output_tokens"@ => count_or_null(context.max_output_tokens),
            "metadata"@ => context.metadata,
            "model"@ => Json::Text(context.client_model),
            "output"@ => Json::Array(answer.output),
            "output_text"@ => Json::Text(answer.output_text),
            "parallel_tool_calls"@ => Json::Bool(context.parallel_tool_calls),
            "previous_response_id"@ => text_or_null(context.previous_response_id),
            "store"@ => Json::Bool(context.store),
            "temperature"@ => num_or_null(context.temperature),
            "top_p"@ => num_or_null(context.top_p),
            "truncation"@ => Json::Text(context.truncation),
            "text"@ => plain_text_format(),
            "tool_choice"@ => context.tool_choice,
            "tools"@ => Json::Array(context.tools),
            "usage"@ => answer.usage,
        ],
    )
}

/// The response while it is under way.
pub open spec fn in_progress_response(context: Context) -> Json {
    response_value(
        context,
        Answer {
            completed_at: Json::Null,
            status: "in_progress"@,
            error: Json::Null,
            incomplete_details: Json::Null,
            output: Seq::empty(),
            output_text: ""@,
            usage: usage_value(upstream_usage(None)),
        },
    )
}

/// The response that came to its end.
pub open spec fn completed_response(
    context: Context,
    turn: Turn,
    usage: Json,
    completed_at: i64,
) -> Json {
    response_value(
        context,
        Answer {
            completed_at: Json::Num(num_of_i64(completed_at)),
            status: "completed"@,
            error: Json::Null,
            incomplete_details: Json::Null,
            output: output_items(context, turn, "completed"@),
            output_text: turn.text,
            usage,
        },
    )
}

/// The response that was cancelled.
pub open spec fn cancelled_response(
    context: Context,
    turn: Turn,
    usage: Json,
    completed_at: i64,
) -> Json {
    response_value(
        context,
        Answer {
            completed_at: Json::Num(num_of_i64(completed_at)),
            status: "cancelled"@,
            error: Json::Null,
            incomplete_details: Json::Object(map!["reason"@ => Json::Text("cancelled"@)]),
            output: output_items(context, turn, "cancelled"@),
            output_text: turn.text,
            usage,
        },
    )
}

/// The response that failed.
pub open spec fn failed_response(
    context: Context,
    turn: Turn,
    completed_at: i64,
    message: Seq<char>,
    code: Seq<char>,
) -> Json {
    response_value(
        context,
        Answer {
            completed_at: Json::Num(num_of_i64(completed_at)),
            status: "failed"@,
            error: Json::Object(
                map![
                    "message"@ => Json::Text(message),
                    "type"@ => Json::Text("api_connection_error"@),
                    "code"@ => Json::Text(code),
                ],
            ),
            incomplete_details: Json::Object(map!["reason"@ => Json::Text("error"@)]),
            output: output_items(context, turn, "incomplete"@),
            output_text: turn.text,
            usage: usage_value(upstream_usage(None)),
        },
    )
}

/// The parts in which responses differ, as values.
struct AnswerValue {
    completed_at: JsonValue,
    status: &'static str,
    error: JsonValue,
    incomplete_details: JsonValue,
    output: Vec<JsonValue>,
    output_text: String,
    usage: JsonValue,
}

impl AnswerValue {
    spec fn answer(self) -> Answer {
        Answer {
            completed_at: self.completed_at@,
            status: self.status@,
            error: self.error@,
            incomplete_details: self.incomplete_details@,
            output: array_of(self.output@),
            output_text: self.output_text@,
            usage: self.usage@,
        }
    }
}

fn optional_text(t: &Option<String>) -> (v: JsonValue)
    ensures
        v@ == text_or_null(t.deep_view()),
{
    match t {
        Some(t) => JsonValue::Text(t.clone()),
        None => JsonValue::Null,
    }
}

fn optional_number(n: &Option<JsonNumber>) -> (v: JsonValue)
    ensures
        v@ == num_or_null(num_option(*n)),
{
    match n {
        Some(n) => JsonValue::Num(n.clone()),
        None => JsonValue::Null,
    }
}

fn respond(context: &RequestContext, answer: AnswerValue) -> (v: JsonValue)
    ensures
        v@ == response_value(context@, answer.answer()),
{
    let format = object().with(
        "format",
        JsonValue::Object(object().with("type", JsonValue::text("text"))),
    );
    let limit = match context.max_output_tokens {
        Some(n) => JsonValue::number(n),
        None => JsonValue::Null,
    };
    let head = object().with("id", JsonValue::Text(context.response_id.clone())).with(
        "object",
        JsonValue::text("response"),
    ).with("created_at", JsonValue::integer(context.created_at)).with(
        "completed_at",
        answer.completed_at,
    ).with("status", JsonValue::text(answer.status)).with("error", answer.error).with(
        "incomplete_details",
        answer.incomplete_details,
    ).with("instructions", optional_text(&context.instructions)).with("max_output_tokens", limit);
    let middle = head.with("metadata", copy_value(&context.metadata)).with(
        "model",
        JsonValue::Text(context.client_model.clone()),
    ).with("output", JsonValue::Array(answer.output)).with(
        "output_text",
        JsonValue::Text(answer.output_text),
    ).with("parallel_tool_calls", JsonValue::Bool(context.parallel_tool_calls)).with(
        "previous_response_id",
        optional_text(&context.previous_response_id),
    ).with("store", JsonValue::Bool(context.store));
    let tail = middle.with("temperature", optional_number(&context.temperature)).with(
        "top_p",
        optional_number(&context.top_p),
    ).with("truncation", JsonValue::Text(context.truncation.clone())).with(
        "text",
        JsonValue::Object(format),
    ).with("tool_choice", copy_value(&context.tool_choice)).with(
        "tools",
        JsonValue::Array(copy_values(&context.tools)),
    ).with("usage", answer.usage);
    JsonValue::Object(tail)
}

pub fn build_reasoning_item(context: &RequestContext, status: &str, reasoning: &str) -> (v:
    JsonValue)
    ensures
        v@ == reasoning_output(context@.reasoning_id, status@, reasoning@),
{
    let part = object().with("type", JsonValue::text("summary_text")).with(
        "text",
        JsonValue::text(reasoning),
    );
    JsonValue::Object(
        object().with("id", JsonValue::Text(context.reasoning_id.clone())).with(
            "type",
            JsonValue::text("reasoning"),
        ).with("status", JsonValue::text(status)).with(
            "summary",
            JsonValue::singleton(JsonValue::Object(part)),
        ),
    )
}

pub fn build_content_part(text: &str) -> (v: JsonValue)
    ensures
        v@ == content_part(text@),
{
    JsonValue::Object(
        object().with("type", JsonValue::text("output_text")).with(
            "text",
            JsonValue::text(text),
        ).with("annotations", JsonValue::empty_array()).with("logprobs", JsonValue::empty_array()),
    )
}

pub fn build_message_item(context: &RequestContext, status: &str, text: &str) -> (v: JsonValue)
    ensures
        v@ == message_output(context@.message_id, status@, text@),
{
    JsonValue::Object(
        object().with("id", JsonValue::Text(context.message_id.clone())).with(
            "type",
            JsonValue::text("message"),
        ).with("status", JsonValue::text(status)).with("role", JsonValue::text("assistant")).with(
            "phase",
            JsonValue::text("final_answer"),
        ).with("content", JsonValue::singleton(build_content_part(text))),
    )
}

pub fn build_function_call_item(tool_call: &ToolCall, status: &str) -> (v: JsonValue)
    ensures
        v@ == call_output(tool_call@, status@),
{
    JsonValue::Object(
        object().with(
            "id",
            JsonValue::Text(function_item_id(tool_call.call_id.as_str())),
        ).with("type", JsonValue::text("function_call")).with(
            "call_id",
            JsonValue::Text(tool_call.call_id.clone()),
        ).with("name", JsonValue::Text(tool_call.name.clone())).with(
            "arguments",
            JsonValue::Text(tool_call.arguments.clone()),
        ).with("status", JsonValue::text(status)),
    )
}

/// The output of a response.
pub fn build_output_items(context: &RequestContext, turn: &AssistantTurn, status: &str) -> (output:
    Vec<JsonValue>)
    ensures
        array_of(output@) == output_items(context@, turn@, status@),
{
    let mut output = copy_values(&context.hosted_output_items);
    if !context.skip_reasoning_output && !turn.reasoning.as_str().is_empty() {
        push_value(&mut output, build_reasoning_item(context, status, turn.reasoning.as_str()));
    }
    if !turn.text.as_str().is_empty() || turn.tool_calls.len() == 0 {
        push_value(&mut output, build_message_item(context, status, turn.text.as_str()));
    }
    let ghost said = array_of(output@);
    let ghost calls = calls_of(turn.tool_calls@);
    let mut i: usize = 0;
    assert(said + Seq::new(0, |k: int| call_output(calls[k], status@)) =~= said);
    while i < turn.tool_calls.len()
        invariant
            i <= turn.tool_calls@.len(),
            calls == calls_of(turn.tool_calls@),
            array_of(output@) == said + Seq::new(
                i as nat,
                |k: int| call_output(calls[k], status@),
            ),
        decreases turn.tool_calls@.len() - i,
    {
        assert(calls[i as int] == turn.tool_calls@[i as int]@);
        push_value(&mut output, build_function_call_item(&turn.tool_calls[i], status));
        i += 1;
        assert(array_of(output@) =~= said + Seq::new(
            i as nat,
            |k: int| call_output(calls[k], status@),
        ));
    }
    output
}

pub fn build_response(
    context: &RequestContext,
    turn: &AssistantTurn,
    usage: JsonValue,
    completed_at: i64,
) -> (v: JsonValue)
    ensures
        v@ == completed_response(context@, turn@, usage@, completed_at),
{
    respond(
        context,
        AnswerValue {
            completed_at: JsonValue::integer(completed_at),
            status: "completed",
            error: JsonValue::Null,
            incomplete_details: JsonValue::Null,
            output: build_output_items(context, turn, "completed"),
            output_text: turn.text.clone(),
            usage,
        },
    )
}

pub fn build_cancelled_response(
    context: &RequestContext,
    turn: &AssistantTurn,
    usage: JsonValue,
    completed_at: i64,
) -> (v: JsonValue)
    ensures
        v@ == cancelled_response(context@, turn@, usage@, completed_at),
{
    respond(
        context,
        AnswerValue {
            completed_at: JsonValue::integer(completed_at),
            status: "cancelled",
            error: JsonValue::Null,
            incomplete_details: JsonValue::Object(
                object().with("reason", JsonValue::text("cancelled")),
            ),
            output: build_output_items(context, turn, "cancelled"),
            output_text: turn.text.clone(),
            usage,
        },
    )
}

pub fn build_failed_response(
    context: &RequestContext,
    turn: &AssistantTurn,
    completed_at: i64,
    message: &str,
    code: &str,
) -> (v: JsonValue)
    ensures
        v@ == failed_response(context@, turn@, completed_at, message@, code@),
{
    let error = object().with("message", JsonValue::text(message)).with(
        "type",
        JsonValue::text("api_connection_error"),
    ).with("code", JsonValue::text(code));
    respond(
        context,
        AnswerValue {
            completed_at: JsonValue::integer(completed_at),
            status: "failed",
            error: JsonValue::Object(error),
            incomplete_details: JsonValue::Object(
                object().with("reason", JsonValue::text("error")),
            ),
            output: build_output_items(context, turn, "incomplete"),
            output_text: turn.text.clone(),
            usage: empty_usage(),
        },
    )
}

pub fn build_in_progress_response(context: &RequestContext) -> (v: JsonValue)
    ensures
        v@ == in_progress_response(context@),
{
    let output: Vec<JsonValue> = Vec::new();
    assert(array_of(output@) =~= Seq::empty());
    respond(
        context,
        AnswerValue {
            completed_at: JsonValue::Null,
            status: "in_progress",
            error: JsonValue::Null,
            incomplete_details: JsonValue::Null,
            output,
            output_text: "".to_owned(),
            usage: empty_usage(),
        },
    )
}

/// The members of a response.
pub proof fn lemma_response_members(context: Context, answer: Answer)
    ensures
        ({
            let v = response_value(context, answer);
            &&& v.get("id"@) == Some(Json::Text(context.response_id))
            &&& v.get("object"@) == Some(Json::Text("response"@))
            &&& v.get("created_at"@) == Some(Json::Num(num_of_i64(context.created_at)))
            &&& v.get("completed_at"@) == Some(answer.completed_at)
            &&& v.get("status"@) == Some(Json::Text(answer.status))
            &&& v.get("error"@) == Some(answer.error)
            &&& v.get("incomplete_details"@) == Some(answer.incomplete_details)
            &&& v.get("instructions"@) == Some(text_or_null(context.instructions))
            &&& v.get("max_output_tokens"@) == Some(count_or_null(context.max_output_tokens))
            &&& v.get("metadata"@) == Some(context.metadata)
            &&& v.get("model"@) == Some(Json::Text(context.client_model))
            &&& v.get("output"@) == Some(Json::Array(answer.output))
            &&& v.get("output_text"@) == Some(Json::Text(answer.output_text))
            &&& v.get("parallel_tool_calls"@) == Some(Json::Bool(context.parallel_tool_calls))
            &&& v.get("previous_response_id"@) == Some(text_or_null(context.previous_response_id))
            &&& v.get("store"@) == Some(Json::Bool(context.store))
            &&& v.get("temperature"@) == Some(num_or_null(context.temperature))
            &&& v.get("top_p"@) == Some(num_or_null(context.top_p))
            &&& v.get("truncation"@) == Some(Json::Text(context.truncation))
            &&& v.get("text"@) == Some(plain_text_format())
            &&& v.get("tool_choice"@) == Some(context.tool_choice)
            &&& v.get("tools"@) == Some(Json::Array(context.tools))
            &&& v.get("usage"@) == Some(answer.usage)
        }),
{
    reveal_strlit("id");
    reveal_strlit("object");
    reveal_strlit("created_at");
    reveal_strlit("completed_at");
    reveal_strlit("status");
    reveal_strlit("error");
    reveal_strlit("incomplete_details");
    reveal_strlit("instructions");
    reveal_strlit("max_output_tokens");
    reveal_strlit("metadata");
    reveal_strlit("model");
    reveal_strlit("output");
    reveal_strlit("output_text");
    reveal_strlit("parallel_tool_calls");
    reveal_strlit("previous_response_id");
    reveal_strlit("store");
    reveal_strlit("temperature");
    reveal_strlit("top_p");
    reveal_strlit("truncation");
    reveal_strlit("text");
    reveal_strlit("tool_choice");
    reveal_strlit("tools");
    reveal_strlit("usage");
    assert("id"@.len() == 2);
    assert("object"@.len() == 6);
    assert("created_at"@.len() == 10);
    assert("completed_at"@.len() == 12);
    assert("status"@.len() == 6);
    assert("error"@.len() == 5);
    assert("incomplete_details"@.len() == 18);
    assert("instructions"@.len() == 12);
    assert("max_output_tokens"@.len() == 17);
    assert("metadata"@.len() == 8);
    assert("model"@.len() == 5);
    assert("output"@.len() == 6);
    assert("output_text"@.len() == 11);
    assert("parallel_tool_calls"@.len() == 19);
    assert("previous_response_id"@.len() == 20);
    assert("store"@.len() == 5);
    assert("temperature"@.len() == 11);
    assert("top_p"@.len() == 5);
    assert("truncation"@.len() == 10);
    assert("text"@.len() == 4);
    assert("tool_choice"@.len() == 11);
    assert("tools"@.len() == 5);
    assert("usage"@.len() == 5);
    assert("object"@[0] == 'o');
    assert("status"@[0] == 's');
    assert("output"@[0] == 'o');
    assert("created_at"@[0] == 'c');
    assert("truncation"@[0] == 't');
    assert("completed_at"@[0] == 'c');
    assert("instructions"@[0] == 'i');
    assert("error"@[0] == 'e');
    assert("model"@[0] == 'm');
    assert("store"@[0] == 's');
    assert("top_p"@[0] == 't');
    assert("tools"@[0] == 't');
    assert("usage"@[0] == 'u');
    assert("output_text"@[0] == 'o');
    assert("temperature"@[0] == 't');
    assert("tool_choice"@[0] == 't');
    assert("object"@[1] == 'b');
    assert("output"@[1] == 'u');
    assert("temperature"@[1] == 'e');
    assert("tool_choice"@[1] == 'o');
    assert("top_p"@[2] == 'p');
    assert("tools"@[2] == 'o');
}

/// Whether an output item tells of reasoning.
pub open spec fn tells_reasoning(
    item: Json,
    id: Seq<char>,
    status: Seq<char>,
    text: Seq<char>,
) -> bool {
    &&& item.get("type"@) == Some(Json::Text("reasoning"@))
    &&& item.get("id"@) == Some(Json::Text(id))
    &&& item.get("status"@) == Some(Json::Text(status))
    &&& item.get("summary"@) matches Some(Json::Array(parts))
    &&& parts.len() == 1
    &&& parts[0].get("type"@) == Some(Json::Text("summary_text"@))
    &&& parts[0].get("text"@) == Some(Json::Text(text))
}

/// Whether an output item tells of a message.
pub open spec fn tells_message(
    item: Json,
    id: Seq<char>,
    status: Seq<char>,
    text: Seq<char>,
) -> bool {
    &&& item.get("type"@) == Some(Json::Text("message"@))
    &&& item.get("id"@) == Some(Json::Text(id))
    &&& item.get("status"@) == Some(Json::Text(status))
    &&& item.get("role"@) == Some(Json::Text("assistant"@))
    &&& item.get("content"@) matches Some(Json::Array(parts))
    &&& parts.len() == 1
    &&& tells_text(parts[0], text)
}

/// Whether a content part tells of a text.
pub open spec fn tells_text(part: Json, text: Seq<char>) -> bool {
    &&& part.get("type"@) == Some(Json::Text("output_text"@))
    &&& part.get("text"@) == Some(Json::Text(text))
    &&& part.get("annotations"@) == Some(Json::Array(Seq::empty()))
}

/// Whether an output item tells of a call.
pub open spec fn tells_call(item: Json, call: Call, status: Seq<char>) -> bool {
    &&& item.get("type"@) == Some(Json::Text("function_call"@))
    &&& item.get("id"@) == Some(Json::Text("fc_"@ + call.call_id))
    &&& item.get("status"@) == Some(Json::Text(status))
    &&& item.get("call_id"@) == Some(Json::Text(call.call_id))
    &&& item.get("name"@) == Some(Json::Text(call.name))
    &&& item.get("arguments"@) == Some(Json::Text(call.arguments))
}

/// Output items tell of what they are made from.
pub proof fn law_items_tell_what_they_hold(
    id: Seq<char>,
    status: Seq<char>,
    text: Seq<char>,
    call: Call,
)
    ensures
        tells_reasoning(reasoning_output(id, status, text), id, status, text),
        tells_message(message_output(id, status, text), id, status, text),
        tells_text(content_part(text), text),
        tells_call(call_output(call, status), call, status),
{
    reveal_strlit("id");
    reveal_strlit("type");
    reveal_strlit("status");
    reveal_strlit("summary");
    reveal_strlit("text");
    reveal_strlit("role");
    reveal_strlit("phase");
    reveal_strlit("content");
    reveal_strlit("annotations");
    reveal_strlit("logprobs");
    reveal_strlit("call_id");
    reveal_strlit("name");
    reveal_strlit("arguments");
    assert("id"@.len() == 2);
    assert("type"@.len() == 4);
    assert("status"@.len() == 6);
    assert("summary"@.len() == 7);
    assert("text"@.len() == 4);
    assert("role"@.len() == 4);
    assert("phase"@.len() == 5);
    assert("content"@.len() == 7);
    assert("annotations"@.len() == 11);
    assert("logprobs"@.len() == 8);
    assert("call_id"@.len() == 7);
    assert("name"@.len() == 4);
    assert("arguments"@.len() == 9);
    assert("type"@[1] == 'y');
    assert("text"@[1] == 'e');
    assert("type"@[0] == 't');
    assert("role"@[0] == 'r');
    assert("name"@[0] == 'n');
    assert("summary"@[0] == 's');
    assert("content"@[0] == 'c');
    assert("call_id"@[0] == 'c');
    assert("text"@[0] == 't');
    assert("content"@[1] == 'o');
    assert("call_id"@[1] == 'a');
}

/// Whether an output tells of a turn: first the items of hosted tools, then the reasoning
/// unless it is left out, then the message if there is text or nothing was called, and then
/// the calls in their order, each with its identifier, name and arguments.
pub open spec fn output_tells(
    output: Seq<Json>,
    context: Context,
    turn: Turn,
    status: Seq<char>,
) -> bool {
    let hosted = context.hosted_output_items;
    let thought: int = if turn.reasoning.len() > 0 && !context.skip_reasoning_output {
        1
    } else {
        0
    };
    let said: int = if turn.text.len() > 0 || turn.calls.len() == 0 {
        1
    } else {
        0
    };
    &&& output.len() == hosted.len() + thought + said + turn.calls.len()
    &&& output.take(hosted.len() as int) == hosted
    &&& thought == 1 ==> tells_reasoning(
        output[hosted.len() as int],
        context.reasoning_id,
        status,
        turn.reasoning,
    )
    &&& said == 1 ==> tells_message(
        output[hosted.len() + thought],
        context.message_id,
        status,
        turn.text,
    )
    &&& forall|i: int|
        0 <= i < turn.calls.len() ==> tells_call(
            #[trigger] output[hosted.len() + thought + said + i],
            turn.calls[i],
            status,
        )
}

/// The output of a response tells of the whole turn.
pub proof fn law_output_tells_the_turn(context: Context, turn: Turn, status: Seq<char>)
    ensures
        output_tells(output_items(context, turn, status), context, turn, status),
{
    let output = output_items(context, turn, status);
    let hosted = context.hosted_output_items;
    assert(output.take(hosted.len() as int) =~= hosted);
    law_items_tell_what_they_hold(
        context.reasoning_id,
        status,
        turn.reasoning,
        Call { call_id: Seq::empty(), name: Seq::empty(), arguments: Seq::empty() },
    );
    law_items_tell_what_they_hold(
        context.message_id,
        status,
        turn.text,
        Call { call_id: Seq::empty(), name: Seq::empty(), arguments: Seq::empty() },
    );
    assert forall|i: int| 0 <= i < turn.calls.len() implies tells_call(
        #[trigger] output[output.len() - turn.calls.len() + i],
        turn.calls[i],
        status,
    ) by {
        law_items_tell_what_they_hold(Seq::empty(), status, Seq::empty(), turn.calls[i]);
    }
    let thought: int = if turn.reasoning.len() > 0 && !context.skip_reasoning_output {
        1
    } else {
        0
    };
    let said: int = if turn.text.len() > 0 || turn.calls.len() == 0 {
        1
    } else {
        0
    };
    assert forall|i: int| 0 <= i < turn.calls.len() implies tells_call(
        #[trigger] output[hosted.len() + thought + said + i],
        turn.calls[i],
        status,
    ) by {
        assert(tells_call(
            output[output.len() - turn.calls.len() + i],
            turn.calls[i],
            status,
        ));
    }
}

/// Whether a response says what was asked for: under its own identifier, for the model that
/// the client named, with the client's instructions, metadata, tools and options.
pub open spec fn echoes_request(v: Json, context: Context) -> bool {
    &&& v.get("id"@) == Some(Json::Text(context.response_id))
    &&& v.get("object"@) == Some(Json::Text("response"@))
    &&& v.get("created_at"@) == Some(Json::Num(num_of_i64(context.created_at)))
    &&& v.get("model"@) == Some(Json::Text(context.client_model))
    &&& v.get("metadata"@) == Some(context.metadata)
    &&& v.get("tools"@) == Some(Json::Array(context.tools))
    &&& v.get("tool_choice"@) == Some(context.tool_choice)
    &&& v.get("store"@) == Some(Json::Bool(context.store))
    &&& v.get("parallel_tool_calls"@) == Some(Json::Bool(context.parallel_tool_calls))
    &&& v.get("truncation"@) == Some(Json::Text(context.truncation))
    &&& v.get("instructions"@) == Some(
        match context.instructions {
            Some(t) => Json::Text(t),
            None => Json::Null,
        },
    )
    &&& v.get("previous_response_id"@) == Some(
        match context.previous_response_id {
            Some(t) => Json::Text(t),
            None => Json::Null,
        },
    )
    &&& v.get("max_output_tokens"@) == Some(
        match context.max_output_tokens {
            Some(n) => Json::Num(Num::Unsigned(n)),
            None => Json::Null,
        },
    )
    &&& v.get("temperature"@) == Some(
        match context.temperature {
            Some(n) => Json::Num(n),
            None => Json::Null,
        },
    )
    &&& v.get("top_p"@) == Some(
        match context.top_p {
            Some(n) => Json::Num(n),
            None => Json::Null,
        },
    )
}

/// A completed response tells of the turn, its text and its usage, and has no error.
pub proof fn law_completed_responses_tell_the_turn(
    context: Context,
    turn: Turn,
    usage: Json,
    completed_at: i64,
)
    ensures
        ({
            let v = completed_response(context, turn, usage, completed_at);
            &&& echoes_request(v, context)
            &&& v.get("status"@) == Some(Json::Text("completed"@))
            &&& v.get("completed_at"@) == Some(Json::Num(num_of_i64(completed_at)))
            &&& v.get("error"@) == Some(Json::Null)
            &&& v.get("incomplete_details"@) == Some(Json::Null)
            &&& v.get("usage"@) == Some(usage)
            &&& v.get("output_text"@) == Some(Json::Text(turn.text))
            &&& v.get("output"@) matches Some(Json::Array(output))
            &&& output_tells(output, context, turn, "completed"@)
        }),
{
    law_output_tells_the_turn(context, turn, "completed"@);
    lemma_response_members(
        context,
        Answer {
            completed_at: Json::Num(num_of_i64(completed_at)),
            status: "completed"@,
            error: Json::Null,
            incomplete_details: Json::Null,
            output: output_items(context, turn, "completed"@),
            output_text: turn.text,
            usage,
        },
    );
}

/// A cancelled response tells of the turn as far as it came, and that it was cancelled.
pub proof fn law_cancelled_responses_tell_the_turn(
    context: Context,
    turn: Turn,
    usage: Json,
    completed_at: i64,
)
    ensures
        ({
            let v = cancelled_response(context, turn, usage, completed_at);
            &&& echoes_request(v, context)
            &&& v.get("status"@) == Some(Json::Text("cancelled"@))
            &&& v.get("completed_at"@) == Some(Json::Num(num_of_i64(completed_at)))
            &&& v.get("error"@) == Some(Json::Null)
            &&& v.get("incomplete_details"@) matches Some(d)
            &&& d.get("reason"@) == Some(Json::Text("cancelled"@))
            &&& v.get("usage"@) == Some(usage)
            &&& v.get("output_text"@) == Some(Json::Text(turn.text))
            &&& v.get("output"@) matches Some(Json::Array(output))
            &&& output_tells(output, context, turn, "cancelled"@)
        }),
{
    law_output_tells_the_turn(context, turn, "cancelled"@);
    lemma_response_members(
        context,
        Answer {
            completed_at: Json::Num(num_of_i64(completed_at)),
            status: "cancelled"@,
            error: Json::Null,
            incomplete_details: Json::Object(map!["reason"@ => Json::Text("cancelled"@)]),
            output: output_items(context, turn, "cancelled"@),
            output_text: turn.text,
            usage,
        },
    );
}

/// A failed response tells of the turn as far as it came, and of the error.
pub proof fn law_failed_responses_tell_the_error(
    context: Context,
    turn: Turn,
    completed_at: i64,
    message: Seq<char>,
    code: Seq<char>,
)
    ensures
        ({
            let v = failed_response(context, turn, completed_at, message, code);
            &&& echoes_request(v, context)
            &&& v.get("status"@) == Some(Json::Text("failed"@))
            &&& v.get("completed_at"@) == Some(Json::Num(num_of_i64(completed_at)))
            &&& v.get("error"@) matches Some(e)
            &&& e.get("message"@) == Some(Json::Text(message))
            &&& e.get("code"@) == Some(Json::Text(code))
            &&& v.get("incomplete_details"@) matches Some(d)
            &&& d.get("reason"@) == Some(Json::Text("error"@))
            &&& v.get("output_text"@) == Some(Json::Text(turn.text))
            &&& v.get("output"@) matches Some(Json::Array(output))
            &&& output_tells(output, context, turn, "incomplete"@)
        }),
{
    reveal_strlit("message");
    reveal_strlit("type");
    reveal_strlit("code");
    assert("message"@.len() == 7);
    assert("type"@.len() == 4);
    assert("code"@.len() == 4);
    assert("type"@[0] == 't');
    assert("code"@[0] == 'c');
    law_output_tells_the_turn(context, turn, "incomplete"@);
    lemma_response_members(
        context,
        Answer {
            completed_at: Json::Num(num_of_i64(completed_at)),
            status: "failed"@,
            error: Json::Object(
                map![
                    "message"@ => Json::Text(message),
                    "type"@ => Json::Text("api_connection_error"@),
                    "code"@ => Json::Text(code),
                ],
            ),
            incomplete_details: Json::Object(map!["reason"@ => Json::Text("error"@)]),
            output: output_items(context, turn, "incomplete"@),
            output_text: turn.text,
            usage: usage_value(upstream_usage(None)),
        },
    );
}

/// A response that is under way says so, and has no output yet.
pub proof fn law_responses_under_way_are_empty(context: Context)
    ensures
        ({
            let v = in_progress_response(context);
            &&& echoes_request(v, context)
            &&& v.get("status"@) == Some(Json::Text("in_progress"@))
            &&& v.get("completed_at"@) == Some(Json::Null)
            &&& v.get("error"@) == Some(Json::Null)
            &&& v.get("output"@) == Some(Json::Array(Seq::empty()))
            &&& v.get("output_text"@) == Some(Json::Text(Seq::empty()))
        }),
{
    reveal_strlit("");
    assert(""@ =~= Seq::empty());
    lemma_response_members(
        context,
        Answer {
            completed_at: Json::Null,
            status: "in_progress"@,
            error: Json::Null,
            incomplete_details: Json::Null,
            output: Seq::empty(),
            output_text: ""@,
            usage: usage_value(upstream_usage(None)),
        },
    );
}

} // verus!
