use std::sync::Arc;

use cc2rep::codec::{parse, to_serde};
use cc2rep::config::{LocalToolSettings, Settings};
use cc2rep::error::ProxyError;
use cc2rep::headers::{authorize, build_headers, build_probe_headers};
use cc2rep::hosted::HostedToolContext;
use cc2rep::json::{object, JsonValue, Object};
use cc2rep::number::JsonNumber;
use cc2rep::probe::Capabilities;
use cc2rep::restore::{assistant_turn_from_output, context_from_response};
use cc2rep::rounds::{
    conclude_round, extract_request_messages, should_auto_execute_tools, stream_round_context,
    translated_with_request_messages, AutoSession, NonStreamRun, StreamRoundOutcome,
};
use cc2rep::server::{
    healthz, load_previous_messages, prepare_request, store_final_response, with_hosted_results,
    Proxy,
};
use cc2rep::session::{AnswerEnd, StreamReader};
use cc2rep::delta::apply_stream_delta;
use cc2rep::sse::{parse_sse_event, SseParser};
use cc2rep::store::{InflightRegistry, ResponseStore, StoredResponse};
use cc2rep::stream::{finalize_stream_items, json_event, StreamState};
use cc2rep::table::Table;
use cc2rep::tools::{ToolExecutor, ToolOutput};
use cc2rep::translate::{
    build_response, AssistantTurn, RequestContext, ToolCall, TranslatedRequest,
};

fn json(text: &str) -> JsonValue {
    parse(text).expect("json")
}

fn members(text: &str) -> Object {
    match json(text) {
        JsonValue::Object(o) => o,
        other => panic!("no object: {other:?}"),
    }
}

fn settings() -> Settings {
    let mut model_aliases: Table<String> = Table::new();
    model_aliases.insert("gpt-5-codex".to_owned(), "deepseek-chat".to_owned());
    Settings {
        proxy_host: "127.0.0.1".to_owned(),
        proxy_port: 8800,
        proxy_api_key: "proxy-secret".to_owned(),
        upstream_base_url: "http://127.0.0.1:1".to_owned(),
        upstream_chat_path: "/v1/chat/completions".to_owned(),
        upstream_model: "deepseek-chat".to_owned(),
        upstream_api_key: "upstream-secret".to_owned(),
        upstream_headers: Table::new(),
        upstream_api_key_header_name: "Authorization".to_owned(),
        upstream_api_key_prefix: "Bearer ".to_owned(),
        request_timeout_seconds: JsonNumber::from_i64(10),
        strict_protocol: false,
        upstream_supports_image_input: false,
        upstream_supports_reasoning_content: None,
        upstream_supports_tool_choice_required: None,
        upstream_supports_named_tool_choice: None,
        response_ttl_seconds: 3600,
        drop_input_reasoning: false,
        drop_tools: false,
        upstream_body: object(),
        model_aliases,
        local_tools: Table::new(),
        max_auto_tool_rounds: 8,
        upstream_max_retries: 0,
        upstream_retry_base_delay_ms: 0,
        upstream_reasoning_effort_field: "reasoning_effort".to_owned(),
        web_search_url: None,
        web_search_max_results: 5,
        file_search_paths: Vec::new(),
        file_search_max_results: 5,
    }
}

fn tool_settings(rounds: u32) -> Settings {
    let mut s = settings();
    s.max_auto_tool_rounds = rounds;
    s.local_tools.insert(
        "echo_json".to_owned(),
        LocalToolSettings {
            command: "sh".to_owned(),
            args: vec!["-lc".to_owned(), "cat".to_owned()],
            env: Table::new(),
            workdir: None,
            timeout_seconds: JsonNumber::from_i64(5),
            stdin_json: true,
            output_json: true,
        },
    );
    s
}

fn caps(image_input: bool) -> Capabilities {
    Capabilities {
        supports_named_tool_choice: false,
        supports_tool_choice_required: false,
        supports_reasoning_content: false,
        supports_image_input: image_input,
        supports_reasoning_effort: false,
    }
}

fn request(store: &ResponseStore, settings: &Settings, body: &str) -> Result<TranslatedRequest, ProxyError> {
    prepare_request(store, settings, &caps(false), body)
}

fn plain_context() -> RequestContext {
    RequestContext {
        response_id: "resp_1".to_owned(),
        reasoning_id: "rs_1".to_owned(),
        message_id: "msg_1".to_owned(),
        created_at: 1,
        client_model: "m".to_owned(),
        upstream_model: "u".to_owned(),
        stream: true,
        store: true,
        parallel_tool_calls: true,
        instructions: None,
        metadata: json("{}"),
        tool_choice: json(r#""auto""#),
        tools: vec![],
        max_output_tokens: None,
        max_tool_calls: None,
        hosted_output_items: Vec::new(),
        previous_response_id: None,
        truncation: "auto".to_owned(),
        temperature: None,
        top_p: None,
        skip_reasoning_output: false,
    }
}

fn bearer(value: &str) -> http::HeaderMap<http::HeaderValue> {
    let mut headers = http::HeaderMap::new();
    headers.insert("authorization", http::HeaderValue::from_str(value).unwrap());
    headers
}

fn answer(content: &str) -> JsonValue {
    json(&format!(
        r#"{{"choices":[{{"message":{{"role":"assistant","content":"{content}","reasoning_content":"I checked the constraints."}}}}],"usage":{{"prompt_tokens":11,"completion_tokens":4,"total_tokens":15}}}}"#
    ))
}

fn answer_request(proxy: &mut Proxy, settings: &Settings, body: &str, upstream: &JsonValue) -> JsonValue {
    let executor = ToolExecutor::new(Arc::new(tool_free(settings)));
    let translated = request(&proxy.store, settings, body).expect("translated");
    proxy.enroll(&translated, 0);
    let run = NonStreamRun::start(&translated, &executor, upstream).expect("answer");
    let execution = run.finish();
    let response = build_response(&translated.context, &execution.turn, execution.usage, 9);
    let kept = translated_with_request_messages(&translated, execution.request_messages);
    proxy.settle(&kept, &response, &AnswerEnd::Completed, 0);
    response
}

fn tool_free(s: &Settings) -> Settings {
    let mut copy = settings();
    copy.max_auto_tool_rounds = s.max_auto_tool_rounds;
    copy
}

#[test]
fn tests_non_stream_reasoning_is_mapped_to_output_item() {
    let mut proxy = Proxy::new(3600);
    let payload = to_serde(&answer_request(
        &mut proxy,
        &settings(),
        r#"{"model":"gpt-5-codex","input":"Say hello"}"#,
        &answer("Hello from upstream"),
    ));
    assert_eq!(payload["output"][0]["type"], "reasoning");
    assert_eq!(payload["output"][1]["type"], "message");
    assert_eq!(payload["output_text"], "Hello from upstream");
    assert_eq!(payload["model"], "gpt-5-codex");
    assert!(payload["id"].as_str().unwrap().starts_with("resp_"));
    let stats = to_serde(&proxy.stats(4));
    assert_eq!(stats["requests"]["total"], 1);
    assert_eq!(stats["requests"]["completed"], 1);
    assert_eq!(stats["tokens"]["input"], 11);
    assert_eq!(stats["stored_responses"], 1);
}

#[test]
fn tests_image_input_requires_flag() {
    let store = ResponseStore::with_ttl(3600);
    let body = r#"{"model":"gpt-5-codex","input":[{"type":"message","role":"user","content":[{"type":"input_image","image_url":"https://example.test/cat.png"}]}]}"#;
    let refused = prepare_request(&store, &settings(), &caps(false), body).unwrap_err();
    assert_eq!(refused.status_code(), 400);
}

#[test]
fn tests_image_input_is_forwarded_when_enabled() {
    let store = ResponseStore::with_ttl(3600);
    let body = r#"{"model":"gpt-5-codex","input":[{"type":"message","role":"user","content":[{"type":"input_image","image_url":"https://example.test/cat.png"}]}]}"#;
    let translated = prepare_request(&store, &settings(), &caps(true), body).unwrap();
    let payload = to_serde(&translated.upstream_payload);
    assert_eq!(payload["model"], "deepseek-chat");
    assert!(payload["messages"][0]["content"].is_array());
    assert_eq!(
        payload["messages"][0]["content"][0]["image_url"],
        "https://example.test/cat.png"
    );
}

#[test]
fn healthz_and_auth_and_response_crud_work() {
    assert_eq!(to_serde(&healthz())["ok"], true);
    let settings = settings();
    assert_eq!(authorize(&settings, &http::HeaderMap::new()), Err(ProxyError::Unauthorized));
    assert!(authorize(&settings, &bearer("Token nope")).is_err());
    assert!(authorize(&settings, &bearer("Bearer definitely-wrong")).is_err());
    assert!(authorize(&settings, &bearer("Bearer proxy-secret")).is_ok());

    let mut proxy = Proxy::new(3600);
    let created = to_serde(&answer_request(
        &mut proxy,
        &settings,
        r#"{"input":"hello","store":true}"#,
        &answer("hi"),
    ));
    let id = created["id"].as_str().unwrap();
    assert_eq!(to_serde(&proxy.get_response(id).unwrap()), created);
    let items = to_serde(&proxy.list_input_items(id).unwrap());
    assert_eq!(items["object"], "list");
    assert_eq!(items["data"][0]["role"], "user");
    assert_eq!(items["has_more"], false);
    let deleted = to_serde(&proxy.delete_response(id).unwrap());
    assert_eq!(deleted["deleted"], true);
    assert_eq!(deleted["id"], id);

    let missing = format!("response `{id}` not found");
    assert_eq!(proxy.get_response(id), Err(ProxyError::BadRequest(missing.clone())));
    assert_eq!(proxy.list_input_items(id), Err(ProxyError::BadRequest(missing.clone())));
    assert_eq!(proxy.cancel_response(id, 1, 0), Err(ProxyError::BadRequest(missing.clone())));
    assert_eq!(proxy.delete_response(id), Err(ProxyError::BadRequest(missing)));
}

#[test]
fn previous_response_id_and_strict_protocol_behave() {
    let settings = settings();
    let mut proxy = Proxy::new(3600);
    let upstream = json(
        r#"{"choices":[{"message":{"content":"next","tool_calls":[{"id":"call_1","function":{"name":"lookup","arguments":"{}"}}]}}]}"#,
    );
    let first = to_serde(&answer_request(&mut proxy, &settings, r#"{"input":"seed"}"#, &upstream));
    let id = first["id"].as_str().unwrap();
    let second = request(
        &proxy.store,
        &settings,
        &format!(r#"{{"input":"follow up","previous_response_id":"{id}"}}"#),
    )
    .unwrap();
    let payload = to_serde(&second.upstream_payload);
    let messages = payload["messages"].as_array().unwrap();
    assert_eq!(messages.len(), 3);
    assert_eq!(messages[0]["content"], "seed");
    assert_eq!(messages[1]["role"], "assistant");
    assert_eq!(messages[2]["content"], "follow up");

    let missing = request(
        &proxy.store,
        &settings,
        r#"{"input":"x","previous_response_id":"missing"}"#,
    )
    .unwrap_err();
    assert_eq!(
        missing,
        ProxyError::BadRequest("previous_response_id `missing` not found".to_owned())
    );

    let mut strict = settings;
    strict.strict_protocol = true;
    let refused =
        request(&proxy.store, &strict, r#"{"input":"x","background":true}"#).unwrap_err();
    assert_eq!(
        refused,
        ProxyError::BadRequest(
            "Unsupported Responses API fields in strict mode: background".to_owned()
        )
    );
    assert!(request(&proxy.store, &strict, r#"{"input":"ok","store":false}"#).is_ok());
}

#[test]
fn tool_execution_round_trip_is_preserved_across_requests() {
    let settings = settings();
    let mut proxy = Proxy::new(3600);
    let upstream = json(
        r#"{"choices":[{"message":{"role":"assistant","reasoning_content":"Check weather.","content":null,
            "tool_calls":[{"id":"call_weather_1","type":"function","function":{"name":"get_weather","arguments":"{\"city\":\"Shanghai\"}"}}]}}]}"#,
    );
    let first = to_serde(&answer_request(
        &mut proxy,
        &settings,
        r#"{"model":"gpt-5-codex","input":"weather?","tools":[{"type":"function","name":"get_weather","parameters":{"type":"object","properties":{"city":{"type":"string"}}}}]}"#,
        &upstream,
    ));
    let id = first["id"].as_str().unwrap();
    let function_call = first["output"]
        .as_array()
        .unwrap()
        .iter()
        .find(|item| item["type"] == "function_call")
        .expect("function call item");
    assert_eq!(function_call["call_id"], "call_weather_1");

    let second = request(
        &proxy.store,
        &settings,
        &format!(
            r#"{{"model":"gpt-5-codex","previous_response_id":"{id}","input":[{{"type":"function_call_output","call_id":"call_weather_1","output":{{"temp":26}}}}]}}"#
        ),
    )
    .unwrap();
    let payload = to_serde(&second.upstream_payload);
    let messages = payload["messages"].as_array().unwrap();
    assert_eq!(messages.len(), 3);
    assert_eq!(messages[1]["role"], "assistant");
    assert_eq!(messages[1]["tool_calls"][0]["id"], "call_weather_1");
    assert_eq!(messages[1]["reasoning_content"], "Check weather.");
    assert_eq!(messages[2]["role"], "tool");
    assert_eq!(messages[2]["tool_call_id"], "call_weather_1");
    assert_eq!(messages[2]["content"], "{\"temp\":26}");
}

const ECHO_REQUEST: &str = r#"{"model":"gpt-5-codex","input":"run local tool","tools":[{"type":"function","name":"echo_json","parameters":{"type":"object","properties":{"city":{"type":"string"}}}}]}"#;

#[test]
fn local_tool_execution_can_complete_non_stream_request() {
    let settings = tool_settings(8);
    let executor = ToolExecutor::new(Arc::new(tool_settings(8)));
    let store = ResponseStore::with_ttl(3600);
    let translated = request(&store, &settings, ECHO_REQUEST).unwrap();
    assert!(should_auto_execute_tools(&executor, &translated));
    let first = json(
        r#"{"choices":[{"message":{"role":"assistant","reasoning_content":"Call local tool.","content":null,
            "tool_calls":[{"id":"call_echo_1","type":"function","function":{"name":"echo_json","arguments":"{\"city\":\"Shanghai\"}"}}]}}]}"#,
    );
    let mut run = NonStreamRun::start(&translated, &executor, &first).unwrap();
    let calls = run.next_calls(&executor).expect("a round");
    assert_eq!(calls[0].call_id, "call_echo_1");
    let outputs = vec![ToolOutput {
        call_id: "call_echo_1".to_owned(),
        output: r#"{"arguments":{"city":"Shanghai"}}"#.to_owned(),
    }];
    assert!(run.take_outputs(&calls, Some(&outputs)));
    let payload = to_serde(run.payload());
    let messages = payload["messages"].as_array().unwrap();
    assert_eq!(messages.len(), 3);
    assert_eq!(messages[1]["reasoning_content"], "Call local tool.");
    assert_eq!(messages[2]["role"], "tool");
    let tool_output = to_serde(&json(messages[2]["content"].as_str().expect("content")));
    assert_eq!(tool_output["arguments"]["city"], "Shanghai");
    run.take_answer(&json(
        r#"{"choices":[{"message":{"role":"assistant","content":"tool-finished"}}],"usage":{"prompt_tokens":4,"completion_tokens":2,"total_tokens":6}}"#,
    ))
    .unwrap();
    assert!(run.next_calls(&executor).is_none());
    let execution = run.finish();
    assert_eq!(execution.turn.text, "tool-finished");
    assert_eq!(to_serde(&execution.usage)["total_tokens"], 6);
    assert_eq!(execution.request_messages.len(), 3);
}

#[test]
fn rounds_and_calls_are_limited() {
    let executor = ToolExecutor::new(Arc::new(tool_settings(1)));
    let store = ResponseStore::with_ttl(3600);
    let asking = json(
        r#"{"choices":[{"message":{"content":null,"tool_calls":[
            {"id":"a","function":{"name":"echo_json","arguments":"{}"}},
            {"id":"b","function":{"name":"echo_json","arguments":"{}"}}]}}]}"#,
    );
    let translated = request(&store, &tool_settings(1), ECHO_REQUEST).unwrap();
    let mut run = NonStreamRun::start(&translated, &executor, &asking).unwrap();
    let calls = run.next_calls(&executor).expect("a round");
    assert!(!run.take_outputs(&calls, None));
    assert!(run.take_outputs(&calls, Some(&Vec::new())));
    run.take_answer(&asking).unwrap();
    assert!(run.next_calls(&executor).is_none());
    assert_eq!(run.finish().turn.tool_calls.len(), 2);

    let limited = request(
        &store,
        &tool_settings(8),
        r#"{"input":"x","max_tool_calls":1,"tools":[{"type":"function","name":"echo_json"}]}"#,
    )
    .unwrap();
    let executor = ToolExecutor::new(Arc::new(tool_settings(8)));
    let mut run = NonStreamRun::start(&limited, &executor, &asking).unwrap();
    assert!(run.next_calls(&executor).is_none());
    assert!(NonStreamRun::start(&limited, &executor, &json(r#"{"not_choices":true}"#)).is_err());
}

fn read_round(bytes: &str) -> Result<StreamRoundOutcome, ProxyError> {
    let mut reader = StreamReader::new();
    reader.accept(false, Ok(bytes.as_bytes().to_vec()));
    while reader.has_pending() {
        reader.advance(false, &stream_round_context(), &mut 0);
    }
    conclude_round(&reader)
}

#[test]
fn local_tool_execution_can_complete_stream_request() {
    let settings = tool_settings(8);
    let executor = ToolExecutor::new(Arc::new(tool_settings(8)));
    let store = ResponseStore::with_ttl(3600);
    let translated = request(
        &store,
        &settings,
        r#"{"model":"gpt-5-codex","input":"run local tool stream","stream":true,"tools":[{"type":"function","name":"echo_json","parameters":{"type":"object","properties":{"city":{"type":"string"}}}}]}"#,
    )
    .unwrap();
    let (mut session, mut events) = AutoSession::open(&translated, 8);
    assert!(session.begin_round());
    let calls = session
        .take_round(
            &executor,
            read_round("data: {\"choices\":[{\"delta\":{\"tool_calls\":[{\"index\":0,\"id\":\"call_echo_stream_1\",\"function\":{\"name\":\"echo_json\",\"arguments\":\"{\\\"city\\\":\\\"Shanghai\\\"}\"}}]}}]}\n\ndata: [DONE]\n\n"),
        )
        .expect("calls");
    assert_eq!(calls[0].arguments, r#"{"city":"Shanghai"}"#);
    let outputs = vec![ToolOutput {
        call_id: "call_echo_stream_1".to_owned(),
        output: r#"{"arguments":{"city":"Shanghai"}}"#.to_owned(),
    }];
    session.take_outputs(&calls, Ok(Some(outputs)));
    assert!(!session.is_over());
    assert_eq!(to_serde(session.payload())["messages"].as_array().unwrap().len(), 3);
    assert!(session.begin_round());
    let more = session.take_round(
        &executor,
        read_round("data: {\"choices\":[{\"delta\":{\"content\":\"stream-\"}}]}\n\ndata: {\"choices\":[{\"delta\":{\"content\":\"done\"}}],\"usage\":{\"prompt_tokens\":5,\"completion_tokens\":2,\"total_tokens\":7}}\n\ndata: [DONE]\n\n"),
    );
    assert!(more.is_none());
    assert!(session.is_over());
    assert!(!session.begin_round());
    let mut closed = session.close(3);
    events.append(&mut closed.events);
    let names: Vec<String> = events.iter().map(|e| e.name.clone()).collect();
    assert_eq!(names[0], "response.created");
    assert!(names.contains(&"response.output_text.done".to_owned()));
    assert_eq!(names.last().unwrap(), "response.completed");
    assert!(events.iter().all(|e| !e.data().contains("call_echo_stream_1")));
    let response = to_serde(&closed.response);
    assert_eq!(response["output_text"], "stream-done");
    assert_eq!(response["usage"]["total_tokens"], 7);
}

#[test]
fn streamed_rounds_can_fail_or_be_cancelled() {
    let executor = ToolExecutor::new(Arc::new(tool_settings(8)));
    let store = ResponseStore::with_ttl(3600);
    let translated = request(&store, &tool_settings(8), r#"{"input":"x","stream":true}"#).unwrap();

    let (mut session, _) = AutoSession::open(&translated, 8);
    assert!(session.take_round(&executor, read_round("data: {\n\n")).is_none());
    assert!(matches!(session.close(1).end, AnswerEnd::Failed(_)));

    let (mut session, _) = AutoSession::open(&translated, 8);
    assert!(session.take_round(&executor, Ok(StreamRoundOutcome::Cancelled)).is_none());
    assert_eq!(to_serde(&session.close(1).response)["status"], "cancelled");

    let (mut session, _) = AutoSession::open(&translated, 8);
    assert!(session
        .take_round(&executor, Ok(StreamRoundOutcome::Failed("reset".to_owned())))
        .is_none());
    assert_eq!(session.close(1).end, AnswerEnd::Failed("reset".to_owned()));

    let (mut session, _) = AutoSession::open(&translated, 8);
    session.fail(&ProxyError::Timeout("slow".to_owned()));
    assert_eq!(
        session.close(1).end,
        AnswerEnd::Failed("request to upstream timed out: slow".to_owned())
    );

    let (mut session, _) = AutoSession::open(&translated, 0);
    assert!(!session.begin_round());
    session.cancel();
    assert_eq!(session.close(1).end, AnswerEnd::Cancelled);
}

#[test]
fn internal_helpers_cover_remaining_branches() {
    let mut inflight = InflightRegistry::default();
    assert!(!inflight.cancel("missing"));
    inflight.start("resp_1".to_owned());
    assert!(!inflight.is_cancelled("resp_1"));
    assert!(inflight.cancel("resp_1"));
    assert!(inflight.is_cancelled("resp_1"));
    inflight.finish("resp_1");
    assert!(!inflight.cancel("resp_1"));

    let mut sequence: u64 = 0;
    let _event = json_event("x", &mut sequence, members(r#"{"type":"x"}"#));
    assert_eq!(sequence, 1);

    let turn = AssistantTurn {
        reasoning: "r".to_owned(),
        text: "t".to_owned(),
        tool_calls: vec![ToolCall {
            call_id: "call_1".to_owned(),
            name: "lookup".to_owned(),
            arguments: "{}".to_owned(),
        }],
    };
    let context = plain_context();
    let events = finalize_stream_items(&turn, &context, &mut 0);
    assert_eq!(events.len(), 7);

    let mut stream_state = StreamState::new();
    assert!(stream_state.has_message());
    let delta_events = apply_stream_delta(
        &mut stream_state,
        &json(
            r#"{"choices":[{"delta":{
                "reasoning_summary":[{"text":"a"}],
                "content":[{"text":"b"}],
                "tool_calls":[
                    {"index":0,"id":"call_1","function":{"name":"lookup","arguments":"{"}},
                    {"index":0,"function":{"arguments":"}"}}]}}]}"#,
        ),
        &context,
        &mut 0,
    );
    assert!(!delta_events.is_empty());
    let built_turn = stream_state.take_turn();
    assert_eq!(built_turn.reasoning, "a");
    assert_eq!(built_turn.text, "b");
    assert_eq!(built_turn.tool_calls[0].arguments, "{}");

    let no_choice = apply_stream_delta(&mut StreamState::new(), &json("{}"), &context, &mut 0);
    assert!(no_choice.is_empty());
    let no_delta = apply_stream_delta(
        &mut StreamState::new(),
        &json(r#"{"choices":[{}]}"#),
        &context,
        &mut 0,
    );
    assert!(no_delta.is_empty());

    let assistant = assistant_turn_from_output(&vec![
        json(r#"{"type":"reasoning","summary":[{"text":"r"}]}"#),
        json(r#"{"type":"message","content":"hello"}"#),
        json(r#"{"type":"function_call","call_id":"call_1","name":"lookup","arguments":"{}"}"#),
        json(r#"{"type":"ignored"}"#),
    ])
    .expect("assistant");
    assert_eq!(assistant.reasoning, "r");
    assert_eq!(assistant.text, "hello");
    assert_eq!(assistant.tool_calls.len(), 1);
    assert!(assistant_turn_from_output(&vec![json(r#"{"type":"function_call","name":"lookup"}"#)])
        .is_err());
    assert!(assistant_turn_from_output(&vec![json(
        r#"{"type":"function_call","call_id":"call_1"}"#
    )])
    .is_err());

    let restored = context_from_response(&json(
        r#"{"id":"resp_1","created_at":1,"model":"m","store":false,"parallel_tool_calls":false,
            "instructions":"i","metadata":{"a":1},"tool_choice":"none","tools":[{"type":"function"}],
            "max_output_tokens":12,
            "output":[{"id":"rs_1","type":"reasoning"},{"id":"msg_1","type":"message"}]}"#,
    ))
    .expect("context");
    assert_eq!(restored.reasoning_id, "rs_1");
    assert_eq!(restored.message_id, "msg_1");
    assert!(!restored.store);
    assert!(!restored.parallel_tool_calls);
    assert_eq!(restored.instructions.as_deref(), Some("i"));
    assert_eq!(restored.max_output_tokens, Some(12));

    let defaults =
        context_from_response(&json(r#"{"id":"resp_2","created_at":2,"output":[]}"#)).unwrap();
    assert_eq!(defaults.reasoning_id, "rs_cancelled");
    assert_eq!(defaults.message_id, "msg_cancelled");
    assert_eq!(defaults.tool_choice, JsonValue::text("auto"));
    assert!(context_from_response(&json(r#"{"created_at":1}"#)).is_err());
    assert!(context_from_response(&json(r#"{"id":"x"}"#)).is_err());

    let mut parser = SseParser::default();
    assert_eq!(parser.push("data: first\n\n").len(), 1);
    assert!(parser.push("data: second").is_empty());
    assert_eq!(parser.push("\n\n").len(), 1);
    assert_eq!(parse_sse_event("event: x\n\n"), None);
    assert_eq!(parse_sse_event("data: a\ndata: b\n\n").as_deref(), Some("a\nb"));

    let mut store = ResponseStore::with_ttl(3600);
    let mut translated = TranslatedRequest {
        upstream_payload: json("{}"),
        context,
        input_items: vec![json(r#"{"type":"message"}"#)],
        request_messages: vec![json(r#"{"role":"user","content":"hi"}"#)],
    };
    translated.context.store = false;
    store_final_response(&mut store, &translated, json(r#"{"id":"resp_1"}"#), 0);
    assert!(store.get("resp_1").is_none());
    translated.context.store = true;
    store_final_response(&mut store, &translated, json(r#"{"id":"resp_1"}"#), 0);
    assert!(store.get("resp_1").is_some());

    assert!(authorize(&settings(), &http::HeaderMap::new()).is_err());
    assert!(authorize(&settings(), &bearer("Token nope")).is_err());
}

#[test]
fn direct_handler_and_helper_edge_cases_are_covered() {
    let settings = settings();
    let mut proxy = Proxy::new(3600);
    let mut strict = settings;
    strict.strict_protocol = true;
    assert_eq!(
        request(&proxy.store, &strict, "[]").unwrap_err(),
        ProxyError::BadRequest("request body must be a JSON object".to_owned())
    );
    assert!(matches!(
        request(&proxy.store, &strict, "{").unwrap_err(),
        ProxyError::BadRequest(m) if m.starts_with("invalid JSON body: ")
    ));
    assert!(request(&proxy.store, &strict, "{}").is_err());

    proxy.store.put(
        "resp_in_progress".to_owned(),
        StoredResponse {
            response: json(
                r#"{"id":"resp_in_progress","created_at":1,"status":"in_progress","model":"m","store":true,
                    "parallel_tool_calls":true,"metadata":{},"tool_choice":"auto","tools":[],
                    "output":[{"id":"rs_1","type":"reasoning","summary":[{"text":"r"}]},
                              {"id":"msg_1","type":"message","content":"t"},
                              {"type":"function_call","call_id":"call_1","name":"lookup","arguments":"{}"}]}"#,
            ),
            input_items: vec![],
            request_messages: vec![json(r#"{"role":"user","content":"hi"}"#)],
            inserted_at: 0,
        },
        0,
    );
    let cancelled = to_serde(&proxy.cancel_response("resp_in_progress", 8, 0).unwrap());
    assert_eq!(cancelled["status"], "cancelled");
    assert_eq!(cancelled["completed_at"], 8);
    let stored = proxy.store.get("resp_in_progress").expect("stored");
    assert_eq!(to_serde(&stored.response)["status"], "cancelled");
    assert_eq!(stored.request_messages.len(), 1);
    let again = to_serde(&proxy.cancel_response("resp_in_progress", 99, 0).unwrap());
    assert_eq!(again["completed_at"], 8);

    proxy.store.put(
        "resp_in_progress_empty".to_owned(),
        StoredResponse {
            response: json(
                r#"{"id":"resp_in_progress_empty","created_at":1,"status":"in_progress","output":[]}"#,
            ),
            input_items: vec![],
            request_messages: vec![],
            inserted_at: 0,
        },
        0,
    );
    assert!(proxy.cancel_response("resp_in_progress_empty", 8, 0).is_ok());

    let mut store = ResponseStore::with_ttl(3600);
    store.put(
        "resp_prev".to_owned(),
        StoredResponse {
            response: json(r#"{"id":"resp_prev"}"#),
            input_items: vec![],
            request_messages: vec![json(r#"{"role":"user","content":"hi"}"#)],
            inserted_at: 0,
        },
        0,
    );
    let previous =
        load_previous_messages(&store, &members(r#"{"previous_response_id":"resp_prev"}"#))
            .expect("previous");
    assert_eq!(previous.len(), 1);
    assert!(load_previous_messages(&store, &members("{}")).unwrap().is_empty());

    assert!(authorize(&strict, &bearer("Bearer definitely-wrong")).is_err());
    assert_eq!(
        proxy.delete_response("missing").unwrap_err().status_code(),
        400
    );

    let mut state = StreamState::new();
    let context = plain_context();
    let events = apply_stream_delta(
        &mut state,
        &json(r#"{"choices":[{"delta":{"reasoning":"","content":1,"tool_calls":[{"id":"call_2"}]}}]}"#),
        &context,
        &mut 0,
    );
    assert!(events.is_empty());
    let events = apply_stream_delta(
        &mut state,
        &json(
            r#"{"choices":[{"delta":{"reasoning":"x","tool_calls":[
                {"id":"call_3","function":{"name":"lookup","arguments":{"x":1}}},
                {"id":"call_4","function":{"name":"noop"}}]}}]}"#,
        ),
        &context,
        &mut 0,
    );
    assert!(!events.is_empty());

    let parsed = assistant_turn_from_output(&vec![json(r#"{"type":"message"}"#)]).expect("turn");
    assert_eq!(parsed.text, "");
    let restored = context_from_response(&json(
        r#"{"id":"resp_3","created_at":3,"output":[{"type":"message","id":"msg_3"}]}"#,
    ))
    .expect("context");
    assert_eq!(restored.reasoning_id, "rs_cancelled");
}

#[test]
fn tests_cancel_marks_inflight_stream_as_cancelled() {
    let mut proxy = Proxy::new(3600);
    let translated =
        request(&proxy.store, &settings(), r#"{"input":"Think","stream":true,"store":true}"#)
            .unwrap();
    proxy.enroll(&translated, 0);
    let id = translated.context.response_id.clone();
    assert!(!proxy.inflight.is_cancelled(&id));
    let under_way = to_serde(&proxy.get_response(&id).unwrap());
    assert_eq!(under_way["status"], "in_progress");
    let cancelled = to_serde(&proxy.cancel_response(&id, 5, 0).unwrap());
    assert!(proxy.inflight.is_cancelled(&id));
    assert_eq!(cancelled["status"], "cancelled");
    for key in ["id", "created_at", "model", "tools", "tool_choice", "metadata", "truncation"] {
        assert_eq!(cancelled[key], under_way[key]);
    }
    let again = to_serde(&proxy.cancel_response(&id, 9, 0).unwrap());
    assert_eq!(again, cancelled);
    assert_eq!(to_serde(&proxy.get_response(&id).unwrap()), cancelled);
    proxy.settle(&translated, &json("{}"), &AnswerEnd::Cancelled, 0);
    assert!(!proxy.inflight.is_cancelled(&id));
    assert_eq!(to_serde(&proxy.stats(0))["requests"]["cancelled"], 1);
}

#[test]
fn unkept_responses_are_not_found() {
    let mut proxy = Proxy::new(3600);
    let response = to_serde(&answer_request(
        &mut proxy,
        &settings(),
        r#"{"input":"hi","store":false}"#,
        &answer("hi"),
    ));
    assert!(proxy.get_response(response["id"].as_str().unwrap()).is_err());
    assert_eq!(to_serde(&proxy.stats(0))["stored_responses"], 0);
}

#[test]
fn hosted_results_join_the_conversation() {
    let store = ResponseStore::with_ttl(3600);
    let translated = request(&store, &settings(), r#"{"input":"hi"}"#).unwrap();
    let mut hosted = HostedToolContext::default();
    hosted.messages.push(json(r#"{"role":"system","content":"found"}"#));
    hosted.output_items.push(json(r#"{"id":"ws_1","type":"web_search_call"}"#));
    let extended = with_hosted_results(translated, &hosted);
    let payload = to_serde(&extended.upstream_payload);
    assert_eq!(payload["messages"][1]["content"], "found");
    assert_eq!(extended.request_messages.len(), 2);
    assert_eq!(extended.context.hosted_output_items.len(), 1);
    assert_eq!(extract_request_messages(&extended.upstream_payload).len(), 2);
}

#[test]
fn searches_say_nothing_of_the_turn() {
    let turn = assistant_turn_from_output(&vec![
        json(r#"{"id":"ws_1","type":"web_search_call","status":"completed"}"#),
        json(r#"{"type":"message","content":[{"type":"output_text","text":"hi"}]}"#),
    ])
    .unwrap();
    assert_eq!(turn.text, "hi");
    assert!(turn.tool_calls.is_empty());
}

#[test]
fn headers_go_upstream() {
    let mut s = settings();
    s.upstream_headers.insert("X-Extra".to_owned(), "present".to_owned());
    let headers = build_headers(&s).unwrap();
    assert_eq!(headers["authorization"], "Bearer upstream-secret");
    assert_eq!(headers["x-extra"], "present");
    assert_eq!(build_probe_headers(&s)["authorization"], "Bearer upstream-secret");

    let mut bad_name = settings();
    bad_name.upstream_api_key_header_name = "bad header".to_owned();
    assert!(matches!(build_headers(&bad_name), Err(ProxyError::InvalidConfig(_))));
    let mut bad_value = settings();
    bad_value.upstream_headers.insert("x-bad".to_owned(), "\n".to_owned());
    assert!(matches!(build_headers(&bad_value), Err(ProxyError::InvalidConfig(_))));
    let mut bad_prefix = settings();
    bad_prefix.upstream_api_key_prefix = "Bearer \n".to_owned();
    assert!(matches!(build_headers(&bad_prefix), Err(ProxyError::InvalidConfig(_))));
    let mut bad_extra = settings();
    bad_extra.upstream_headers.insert("bad name".to_owned(), "x".to_owned());
    assert!(matches!(build_headers(&bad_extra), Err(ProxyError::InvalidConfig(_))));
}
