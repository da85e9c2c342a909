//! Reading stored responses back: the turn in their output, and the context of their
//! request.

use crate::error::{outcome, Failure, ProxyError};
use crate::fold::{lemma_try_fold_failure, lemma_try_fold_step, try_fold};
use crate::json::{array_of, copy_value, copy_values, object, Json, JsonValue};
use crate::number::{JsonNumber, Num};
use crate::response::{call_output, content_part, message_output, output_items, reasoning_output};
use crate::text::same_text;
use crate::translate::{num_option, Context, RequestContext};
use crate::turn::{
    calls_of, extract_message_text, message_text, no_turn, text_of_part, AssistantTurn, Call,
    ToolCall, Turn,
};
use crate::hosted::{web_section, Hit};
use crate::search::file_section;
use vstd::prelude::*;
use vstd::string::*;

verus! {

/// The text of the first part of a reasoning item's summary.
pub open spec fn summary_text(item: Json) -> Option<Seq<char>> {
    match item.get("summary"@) {
        Some(Json::Array(parts)) => if parts.len() > 0 {
            parts[0].text_at("text"@)
        } else {
            None
        },
        _ => None,
    }
}

/// The turn after one more output item.
pub open spec fn after_output(turn: Turn, item: Json) -> Result<Turn, Failure> {
    let kind = match item.text_at("type"@) {
        Some(k) => k,
        None => ""@,
    };
    if kind == "reasoning"@ {
        Ok(
            match summary_text(item) {
                Some(t) => Turn { reasoning: t, ..turn },
                None => turn,
            },
        )
    } else if kind == "message"@ {
        match item.get("content"@) {
            None => Ok(turn),
            Some(content) => match message_text(content) {
                Ok(text) => Ok(Turn { text, ..turn }),
                Err(e) => Err(e),
            },
        }
    } else if kind == "function_call"@ {
        match item.text_at("call_id"@) {
            None => Err(Failure::Internal("stored function_call missing call_id"@)),
            Some(call_id) => match item.text_at("name"@) {
                None => Err(Failure::Internal("stored function_call missing name"@)),
                Some(name) => {
                    let arguments = match item.text_at("arguments"@) {
                        Some(a) => a,
                        None => ""@,
                    };
                    Ok(Turn { calls: turn.calls.push(Call { call_id, name, arguments }), ..turn })
                },
            },
        }
    } else {
        Ok(turn)
    }
}

/// The rule by which output items are read back.
pub open spec fn output_rule() -> spec_fn(Turn, Json) -> Result<Turn, Failure> {
    |turn: Turn, item: Json| after_output(turn, item)
}

/// The turn in a response's output.
pub open spec fn turn_in(output: Seq<Json>) -> Result<Turn, Failure> {
    try_fold(no_turn(), output, output_rule())
}

fn read_summary(item: &JsonValue) -> (t: Option<&str>)
    ensures
        t.deep_view() == summary_text(item@),
{
    match item.get("summary") {
        Some(JsonValue::Array(parts)) => if parts.len() > 0 {
            assert(array_of(parts@)[0] == parts@[0]@);
            parts[0].text_at("text")
        } else {
            None
        },
        _ => None,
    }
}

fn take_output(turn: &mut AssistantTurn, item: &JsonValue) -> (r: Result<(), ProxyError>)
    ensures
        match r {
            Ok(_) => after_output(old(turn)@, item@) == Ok::<Turn, Failure>(final(turn)@),
            Err(e) => after_output(old(turn)@, item@) == Err::<Turn, Failure>(e@),
        },
{
    let kind = match item.text_at("type") {
        Some(kind) => kind,
        None => "",
    };
    if same_text(kind, "reasoning") {
        if let Some(text) = read_summary(item) {
            turn.reasoning = text.to_owned();
        }
        Ok(())
    } else if same_text(kind, "message") {
        match item.get("content") {
            Some(content) => match extract_message_text(content) {
                Ok(text) => {
                    turn.text = text;
                    Ok(())
                },
                Err(e) => Err(e),
            },
            None => Ok(()),
        }
    } else if same_text(kind, "function_call") {
        let call_id = match item.text_at("call_id") {
            Some(id) => id.to_owned(),
            None => return Err(
                ProxyError::Internal("stored function_call missing call_id".to_owned()),
            ),
        };
        let name = match item.text_at("name") {
            Some(name) => name.to_owned(),
            None => return Err(
                ProxyError::Internal("stored function_call missing name".to_owned()),
            ),
        };
        let arguments = match item.text_at("arguments") {
            Some(a) => a.to_owned(),
            None => "".to_owned(),
        };
        let call = ToolCall { call_id, name, arguments };
        let ghost before = turn.tool_calls@;
        turn.tool_calls.push(call);
        assert(calls_of(turn.tool_calls@) =~= calls_of(before).push(call@));
        Ok(())
    } else {
        Ok(())
    }
}

/// The turn in a response's output.
pub fn assistant_turn_from_output(output: &Vec<JsonValue>) -> (r: Result<AssistantTurn, ProxyError>)
    ensures
        outcome(r) == turn_in(array_of(output@)),
{
    let ghost items = array_of(output@);
    let ghost rule = output_rule();
    let mut turn = AssistantTurn::default();
    let mut i: usize = 0;
    assert(items.take(0) =~= Seq::empty());
    while i < output.len()
        invariant
            i <= output@.len(),
            items == array_of(output@),
            rule == output_rule(),
            try_fold(no_turn(), items.take(i as int), rule) == Ok::<Turn, Failure>(turn@),
        decreases output@.len() - i,
    {
        proof {
            lemma_try_fold_step(no_turn(), items, i as int, rule);
            assert(items[i as int] == output@[i as int]@);
        }
        match take_output(&mut turn, &output[i]) {
            Ok(_) => {},
            Err(e) => {
                proof {
                    lemma_try_fold_failure(no_turn(), items, i + 1, rule);
                }
                return Err(e);
            },
        }
        i += 1;
    }
    assert(items.take(i as int) =~= items);
    Ok(turn)
}

/// The identifier of the first item of a kind that has one.
pub open spec fn first_id(items: Seq<Json>, kind: Seq<char>) -> Option<Seq<char>>
    decreases items.len(),
{
    if items.len() == 0 {
        None
    } else if items[0].text_at("type"@) == Some(kind) && items[0].text_at("id"@) is Some {
        items[0].text_at("id"@)
    } else {
        first_id(items.skip(1), kind)
    }
}

/// The output items of a response.
pub open spec fn output_of(response: Json) -> Seq<Json> {
    match response.get("output"@) {
        Some(Json::Array(items)) => items,
        _ => Seq::empty(),
    }
}

/// A text, or what stands in for it.
pub open spec fn text_or(t: Option<Seq<char>>, other: Seq<char>) -> Seq<char> {
    match t {
        Some(t) => t,
        None => other,
    }
}

/// A boolean member, true where there is none.
pub open spec fn true_unless(response: Json, key: Seq<char>) -> bool {
    match response.get(key) {
        Some(v) => match v.as_bool() {
            Some(b) => b,
            None => true,
        },
        None => true,
    }
}

/// A count under `key`.
pub open spec fn optional_count(response: Json, key: Seq<char>) -> Option<u64> {
    match response.get(key) {
        Some(v) => v.as_u64(),
        None => None,
    }
}

/// A number under `key` in double precision.
pub open spec fn float_member(response: Json, key: Seq<char>) -> Option<Num> {
    match response.get(key) {
        Some(Json::Num(n)) => Some(n.as_float()),
        _ => None,
    }
}

/// A member, or what stands in for it.
pub open spec fn member_or(response: Json, key: Seq<char>, other: Json) -> Json {
    match response.get(key) {
        Some(v) => v,
        None => other,
    }
}

/// The context of the request that a response answers.
pub open spec fn restored_context(response: Json) -> Result<Context, Failure> {
    match response.text_at("id"@) {
        None => Err(Failure::Internal("stored response missing id"@)),
        Some(response_id) => {
            let created_at = match response.get("created_at"@) {
                Some(v) => v.as_i64(),
                None => None,
            };
            match created_at {
                None => Err(Failure::Internal("stored response missing created_at"@)),
                Some(created_at) => Ok(
                    Context {
                        response_id,
                        reasoning_id: text_or(
                            first_id(output_of(response), "reasoning"@),
                            "rs_cancelled"@,
                        ),
                        message_id: text_or(
                            first_id(output_of(response), "message"@),
                            "msg_cancelled"@,
                        ),
                        created_at,
                        client_model: text_or(response.text_at("model"@), ""@),
                        upstream_model: Seq::empty(),
                        stream: false,
                        store: true_unless(response, "store"@),
                        parallel_tool_calls: true_unless(response, "parallel_tool_calls"@),
                        instructions: response.text_at("instructions"@),
                        metadata: member_or(response, "metadata"@, Json::Object(Map::empty())),
                        tool_choice: member_or(response, "tool_choice"@, Json::Text("auto"@)),
                        tools: match response.get("tools"@) {
                            Some(Json::Array(tools)) => tools,
                            _ => Seq::empty(),
                        },
                        max_output_tokens: optional_count(response, "max_output_tokens"@),
                        max_tool_calls: match optional_count(response, "max_tool_calls"@) {
                            Some(n) => Some(n as u32),
                            None => None,
                        },
                        hosted_output_items: Seq::empty(),
                        previous_response_id: response.text_at("previous_response_id"@),
                        truncation: text_or(response.text_at("truncation"@), "auto"@),
                        temperature: float_member(response, "temperature"@),
                        top_p: float_member(response, "top_p"@),
                        skip_reasoning_output: false,
                    },
                ),
            }
        },
    }
}

fn find_id(items: &Vec<JsonValue>, kind: &str) -> (id: Option<String>)
    ensures
        id.deep_view() == first_id(array_of(items@), kind@),
{
    let ghost all = array_of(items@);
    let mut i: usize = 0;
    assert(all.skip(0) =~= all);
    while i < items.len()
        invariant
            i <= items@.len(),
            all == array_of(items@),
            first_id(all.skip(i as int), kind@) == first_id(all, kind@),
        decreases items@.len() - i,
    {
        assert(all.skip(i as int)[0] == items@[i as int]@);
        assert(all.skip(i as int).skip(1) =~= all.skip(i + 1));
        if let Some(k) = items[i].text_at("type") {
            if same_text(k, kind) {
                if let Some(id) = items[i].text_at("id") {
                    return Some(id.to_owned());
                }
            }
        }
        i += 1;
    }
    None
}

fn text_member(response: &JsonValue, key: &str) -> (t: Option<String>)
    ensures
        t.deep_view() == response@.text_at(key@),
{
    match response.text_at(key) {
        Some(t) => Some(t.to_owned()),
        None => None,
    }
}

fn or_else(t: Option<String>, other: &str) -> (s: String)
    ensures
        s@ == text_or(t.deep_view(), other@),
{
    match t {
        Some(t) => t,
        None => other.to_owned(),
    }
}

fn flag_member(response: &JsonValue, key: &str) -> (b: bool)
    ensures
        b == true_unless(response@, key@),
{
    match response.get(key) {
        Some(v) => match v.as_bool() {
            Some(b) => b,
            None => true,
        },
        None => true,
    }
}

fn count_member(response: &JsonValue, key: &str) -> (n: Option<u64>)
    ensures
        n == optional_count(response@, key@),
{
    match response.get(key) {
        Some(v) => v.as_u64(),
        None => None,
    }
}

fn number_member(response: &JsonValue, key: &str) -> (n: Option<JsonNumber>)
    ensures
        num_option(n) == float_member(response@, key@),
{
    match response.get(key) {
        Some(JsonValue::Num(n)) => Some(n.as_float()),
        _ => None,
    }
}

/// The context of the request that a response answers.
pub fn context_from_response(response: &JsonValue) -> (r: Result<RequestContext, ProxyError>)
    ensures
        outcome(r) == restored_context(response@),
{
    let none: Vec<JsonValue> = Vec::new();
    assert(array_of(none@) =~= Seq::empty());
    let output = match response.get("output") {
        Some(JsonValue::Array(items)) => items,
        _ => &none,
    };
    let response_id = match text_member(response, "id") {
        Some(id) => id,
        None => return Err(ProxyError::Internal("stored response missing id".to_owned())),
    };
    let created = match response.get("created_at") {
        Some(v) => v.as_i64(),
        None => None,
    };
    let created_at = match created {
        Some(t) => t,
        None => return Err(
            ProxyError::Internal("stored response missing created_at".to_owned()),
        ),
    };
    let metadata = match response.get("metadata") {
        Some(v) => copy_value(v),
        None => JsonValue::Object(object()),
    };
    let tool_choice = match response.get("tool_choice") {
        Some(v) => copy_value(v),
        None => JsonValue::text("auto"),
    };
    let tools = match response.get("tools") {
        Some(JsonValue::Array(tools)) => copy_values(tools),
        _ => copy_values(&none),
    };
    let max_tool_calls = match count_member(response, "max_tool_calls") {
        Some(n) => Some(n as u32),
        None => None,
    };
    Ok(
        RequestContext {
            response_id,
            reasoning_id: or_else(find_id(output, "reasoning"), "rs_cancelled"),
            message_id: or_else(find_id(output, "message"), "msg_cancelled"),
            created_at,
            client_model: or_else(text_member(response, "model"), ""),
            upstream_model: String::new(),
            stream: false,
            store: flag_member(response, "store"),
            parallel_tool_calls: flag_member(response, "parallel_tool_calls"),
            instructions: text_member(response, "instructions"),
            metadata,
            tool_choice,
            tools,
            max_output_tokens: count_member(response, "max_output_tokens"),
            max_tool_calls,
            hosted_output_items: copy_values(&none),
            previous_response_id: text_member(response, "previous_response_id"),
            truncation: or_else(text_member(response, "truncation"), "auto"),
            temperature: number_member(response, "temperature"),
            top_p: number_member(response, "top_p"),
            skip_reasoning_output: false,
        },
    )
}

/// Whether an item is none of those that a turn is read from.
pub open spec fn is_inert(item: Json) -> bool {
    item.text_at("type"@) != Some("reasoning"@) && item.text_at("type"@) != Some("message"@)
        && item.text_at("type"@) != Some("function_call"@)
}

proof fn lemma_item_keys()
    ensures
        "id"@ != "type"@,
        "id"@ != "status"@,
        "id"@ != "summary"@,
        "type"@ != "status"@,
        "type"@ != "summary"@,
        "status"@ != "summary"@,
        "type"@ != "role"@,
        "type"@ != "phase"@,
        "type"@ != "content"@,
        "type"@ != "call_id"@,
        "type"@ != "name"@,
        "type"@ != "arguments"@,
        "type"@ != "text"@,
        "text"@ != "annotations"@,
        "text"@ != "logprobs"@,
        "type"@ != "annotations"@,
        "type"@ != "logprobs"@,
        "call_id"@ != "name"@,
        "call_id"@ != "arguments"@,
        "call_id"@ != "status"@,
        "name"@ != "arguments"@,
        "name"@ != "status"@,
        "arguments"@ != "status"@,
        "reasoning"@ != "message"@,
        "reasoning"@ != "function_call"@,
        "message"@ != "function_call"@,
        ""@ != "reasoning"@,
        ""@ != "message"@,
        ""@ != "function_call"@,
        "output_text"@ != "input_text"@,
{
    reveal_strlit("");
    reveal_strlit("id");
    reveal_strlit("type");
    reveal_strlit("status");
    reveal_strlit("summary");
    reveal_strlit("role");
    reveal_strlit("phase");
    reveal_strlit("content");
    reveal_strlit("call_id");
    reveal_strlit("name");
    reveal_strlit("arguments");
    reveal_strlit("text");
    reveal_strlit("annotations");
    reveal_strlit("logprobs");
    reveal_strlit("reasoning");
    reveal_strlit("message");
    reveal_strlit("function_call");
    reveal_strlit("output_text");
    reveal_strlit("input_text");
    assert(""@.len() == 0 && "id"@.len() == 2 && "type"@.len() == 4 && "status"@.len() == 6);
    assert("summary"@.len() == 7 && "role"@.len() == 4 && "phase"@.len() == 5);
    assert("content"@.len() == 7 && "call_id"@.len() == 7 && "name"@.len() == 4);
    assert("arguments"@.len() == 9 && "text"@.len() == 4 && "annotations"@.len() == 11);
    assert("logprobs"@.len() == 8 && "reasoning"@.len() == 9 && "message"@.len() == 7);
    assert("function_call"@.len() == 13 && "output_text"@.len() == 11 && "input_text"@.len() == 10);
    assert("type"@[1] == 'y' && "role"@[1] == 'o' && "name"@[1] == 'a' && "text"@[1] == 'e');
}

proof fn lemma_inert_items(turn: Turn, items: Seq<Json>)
    requires
        forall|i: int| 0 <= i < items.len() ==> is_inert(#[trigger] items[i]),
    ensures
        try_fold(turn, items, output_rule()) == Ok::<Turn, Failure>(turn),
    decreases items.len(),
{
    if items.len() > 0 {
        assert forall|i: int| 0 <= i < items.drop_last().len() implies is_inert(
            #[trigger] items.drop_last()[i],
        ) by {
            assert(items.drop_last()[i] == items[i]);
        }
        lemma_inert_items(turn, items.drop_last());
        lemma_item_keys();
        assert(is_inert(items[items.len() - 1]));
    }
}

proof fn lemma_message_text(text: Seq<char>)
    ensures
        message_text(Json::Array(seq![content_part(text)])) == Ok::<Seq<char>, Failure>(text),
{
    lemma_item_keys();
    let part = content_part(text);
    assert(text_of_part(part) == Ok::<Seq<char>, Failure>(text));
    reveal_with_fuel(try_fold, 2);
    assert(seq![part].drop_last() =~= Seq::empty());
    assert(Seq::<char>::empty() + text =~= text);
}

proof fn lemma_calls_back(turn: Turn, calls: Seq<Call>, status: Seq<char>, head: Seq<Json>, n: nat)
    requires
        n <= calls.len(),
        turn.calls.len() == 0,
        try_fold(no_turn(), head, output_rule()) == Ok::<Turn, Failure>(turn),
    ensures
        try_fold(
            no_turn(),
            head + Seq::new(n, |i: int| call_output(calls[i], status)),
            output_rule(),
        ) == Ok::<Turn, Failure>((Turn { calls: calls.take(n as int), ..turn })),
    decreases n,
{
    let items = head + Seq::new(n, |i: int| call_output(calls[i], status));
    if n == 0 {
        assert(items =~= head);
        assert(calls.take(0) =~= turn.calls);
    } else {
        lemma_calls_back(turn, calls, status, head, (n - 1) as nat);
        assert(items.drop_last() =~= head + Seq::new(
            (n - 1) as nat,
            |i: int| call_output(calls[i], status),
        ));
        assert(items.last() == call_output(calls[n - 1], status));
        lemma_item_keys();
        assert(calls.take(n as int) =~= calls.take(n - 1).push(calls[n - 1]));
    }
}

/// The turn that a response was made from can be read back from its output: its text,
/// its calls, and its reasoning unless that was left out. Items of hosted tools do not
/// disturb this.
pub proof fn law_output_gives_back_the_turn(context: Context, turn: Turn, status: Seq<char>)
    requires
        forall|i: int|
            0 <= i < context.hosted_output_items.len() ==> is_inert(
                #[trigger] context.hosted_output_items[i],
            ),
    ensures
        turn_in(output_items(context, turn, status)) == Ok::<Turn, Failure>(
            (Turn {
                reasoning: if context.skip_reasoning_output {
                    Seq::empty()
                } else {
                    turn.reasoning
                },
                ..turn
            }),
        ),
{
    lemma_item_keys();
    let hosted = context.hosted_output_items;
    lemma_inert_items(no_turn(), hosted);
    let reasoning = if context.skip_reasoning_output {
        Seq::empty()
    } else {
        turn.reasoning
    };
    let thought = if !context.skip_reasoning_output && turn.reasoning.len() > 0 {
        hosted.push(reasoning_output(context.reasoning_id, status, turn.reasoning))
    } else {
        hosted
    };
    let after_thought = Turn { text: Seq::empty(), reasoning, calls: Seq::empty() };
    assert(try_fold(no_turn(), thought, output_rule()) == Ok::<Turn, Failure>(after_thought)) by {
        if !context.skip_reasoning_output && turn.reasoning.len() > 0 {
            assert(thought.drop_last() =~= hosted);
            let item = reasoning_output(context.reasoning_id, status, turn.reasoning);
            assert(summary_text(item) == Some(turn.reasoning));
        } else {
            assert(reasoning =~= Seq::empty());
        }
    }
    let said = if turn.has_message() {
        thought.push(message_output(context.message_id, status, turn.text))
    } else {
        thought
    };
    let after_said = Turn { text: turn.text, reasoning, calls: Seq::empty() };
    assert(try_fold(no_turn(), said, output_rule()) == Ok::<Turn, Failure>(after_said)) by {
        if turn.has_message() {
            assert(said.drop_last() =~= thought);
            lemma_message_text(turn.text);
        } else {
            assert(turn.text =~= Seq::empty());
        }
    }
    lemma_calls_back(after_said, turn.calls, status, said, turn.calls.len());
    assert(turn.calls.take(turn.calls.len() as int) =~= turn.calls);
}

/// The output items of searches say nothing of the turn.
pub proof fn law_search_items_are_inert(
    query: Seq<char>,
    hits: Seq<Hit>,
    files: Seq<(Seq<char>, Seq<char>)>,
    id: Seq<char>,
)
    ensures
        web_section(query, hits, id).output_item matches Some(item) && is_inert(item),
        file_section(query, files, id).output_item matches Some(item) && is_inert(item),
{
    lemma_item_keys();
    reveal_strlit("type");
    reveal_strlit("action");
    reveal_strlit("query");
    reveal_strlit("results");
    reveal_strlit("web_search_call");
    reveal_strlit("file_search_call");
    reveal_strlit("reasoning");
    reveal_strlit("message");
    reveal_strlit("function_call");
    assert("type"@.len() == 4 && "action"@.len() == 6 && "query"@.len() == 5);
    assert("results"@.len() == 7);
    assert("web_search_call"@.len() == 15 && "file_search_call"@.len() == 16);
    assert("reasoning"@.len() == 9 && "message"@.len() == 7 && "function_call"@.len() == 13);
}

proof fn lemma_first_id(items: Seq<Json>, kind: Seq<char>, i: int)
    requires
        0 <= i < items.len(),
        items[i].text_at("type"@) == Some(kind),
        items[i].text_at("id"@) is Some,
        forall|j: int| 0 <= j < i ==> (#[trigger] items[j]).text_at("type"@) != Some(kind),
    ensures
        first_id(items, kind) == items[i].text_at("id"@),
    decreases i,
{
    if i > 0 {
        assert(items[0].text_at("type"@) != Some(kind));
        assert(forall|j: int| 0 <= j < items.len() - 1 ==> items.skip(1)[j] == items[j + 1]);
        assert forall|j: int| 0 <= j < i - 1 implies (#[trigger] items.skip(1)[j]).text_at("type"@)
            != Some(kind) by {
            assert(items[j + 1].text_at("type"@) != Some(kind));
        }
        lemma_first_id(items.skip(1), kind, i - 1);
    }
}

/// The context of a kept response is the one that the response tells of: its own
/// identifier and time, the identifiers of its items, and what it says of its request.
pub proof fn law_contexts_are_read_from_the_response(response: Json, items: Seq<Json>, i: int)
    requires
        response.get("id"@) matches Some(Json::Text(_)),
        response.get("created_at"@) matches Some(v) && v.as_i64() is Some,
        response.get("output"@) == Some(Json::Array(items)),
        0 <= i < items.len(),
        items[i].text_at("id"@) is Some,
        forall|j: int|
            0 <= j < i ==> (#[trigger] items[j]).text_at("type"@) != items[i].text_at("type"@),
    ensures
        restored_context(response) matches Ok(c) && {
            &&& Some(Json::Text(c.response_id)) == response.get("id"@)
            &&& Some(c.created_at) == response.get("created_at"@)->0.as_i64()
            &&& items[i].text_at("type"@) == Some("reasoning"@) ==> Some(c.reasoning_id)
                == items[i].text_at("id"@)
            &&& items[i].text_at("type"@) == Some("message"@) ==> Some(c.message_id)
                == items[i].text_at("id"@)
            &&& response.get("model"@) matches Some(Json::Text(m)) ==> c.client_model == m
            &&& response.get("store"@) matches Some(Json::Bool(b)) ==> c.store == b
            &&& response.get("parallel_tool_calls"@) matches Some(Json::Bool(b))
                ==> c.parallel_tool_calls == b
            &&& c.instructions == response.text_at("instructions"@)
            &&& c.previous_response_id == response.text_at("previous_response_id"@)
            &&& response.get("metadata"@) is Some ==> Some(c.metadata) == response.get("metadata"@)
            &&& response.get("tool_choice"@) is Some ==> Some(c.tool_choice) == response.get(
                "tool_choice"@,
            )
            &&& response.get("tools"@) matches Some(Json::Array(tools)) ==> c.tools == tools
            &&& response.get("max_output_tokens"@) matches Some(n) ==> c.max_output_tokens
                == n.as_u64()
            &&& response.get("truncation"@) matches Some(Json::Text(t)) ==> c.truncation == t
            &&& response.get("temperature"@) matches Some(Json::Num(n)) ==> c.temperature == Some(
                n.as_float(),
            )
            &&& response.get("top_p"@) matches Some(Json::Num(n)) ==> c.top_p == Some(n.as_float())
        },
{
    if items[i].text_at("type"@) == Some("reasoning"@) {
        lemma_first_id(items, "reasoning"@, i);
    }
    if items[i].text_at("type"@) == Some("message"@) {
        lemma_first_id(items, "message"@, i);
    }
}

/// The items of a response's output are taken into the turn one by one: a reasoning item
/// gives its summary, a message its text, in place of what was there, and a call comes
/// behind those before it. Other items are passed over, and a call without an identifier
/// or a name is an error.
pub proof fn law_items_are_taken_into_the_turn(turn: Turn, item: Json, t: Seq<char>)
    ensures
        ({
            let kind = item.text_at("type"@);
            let after = after_output(turn, item);
            &&& kind == Some("reasoning"@) && (item.get("summary"@) matches Some(Json::Array(parts))
                && parts.len() > 0 && parts[0].get("text"@) == Some(Json::Text(t))) ==> after
                == Ok::<Turn, Failure>(Turn { reasoning: t, ..turn })
            &&& kind == Some("message"@) && item.get("content"@) == Some(Json::Text(t)) ==> after
                == Ok::<Turn, Failure>(Turn { text: t, ..turn })
            &&& kind == Some("message"@) && item.get("content"@) is None ==> after == Ok::<
                Turn,
                Failure,
            >(turn)
            &&& kind == Some("function_call"@) && item.text_at("call_id"@) is Some && item.text_at(
                "name"@,
            ) is Some && item.get("arguments"@) == Some(Json::Text(t)) ==> after == Ok::<
                Turn,
                Failure,
            >(
                Turn {
                    calls: turn.calls.push(
                        Call {
                            call_id: item.text_at("call_id"@)->0,
                            name: item.text_at("name"@)->0,
                            arguments: t,
                        },
                    ),
                    ..turn
                },
            )
            &&& kind == Some("function_call"@) && (item.text_at("call_id"@) is None
                || item.text_at("name"@) is None) ==> after is Err
            &&& kind != Some("reasoning"@) && kind != Some("message"@) && kind != Some(
                "function_call"@,
            ) ==> after == Ok::<Turn, Failure>(turn)
        }),
{
    lemma_item_keys();
    reveal_strlit("reasoning");
    reveal_strlit("message");
    reveal_strlit("function_call");
    assert("reasoning"@.len() == 9);
    assert("message"@.len() == 7);
    assert("function_call"@.len() == 13);
    reveal_strlit("");
    assert(""@.len() == 0);
}

} // verus!
