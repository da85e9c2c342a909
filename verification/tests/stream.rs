use cc2rep::codec::{parse, to_serde};
use cc2rep::delta::apply_stream_delta;
use cc2rep::json::{object, JsonValue};
use cc2rep::response::build_response;
use cc2rep::session::{AnswerEnd, StreamSession};
use cc2rep::sse::{parse_sse_event, SseParser};
use cc2rep::stream::{finalize_stream_items, json_event, StreamEvent, StreamState};
use cc2rep::translate::{
    parse_assistant_turn_from_response, AssistantTurn, RequestContext, ToolCall,
};

fn json(text: &str) -> JsonValue {
    parse(text).expect("json")
}

fn context() -> RequestContext {
    RequestContext {
        response_id: "resp_1".to_owned(),
        reasoning_id: "rs_1".to_owned(),
        message_id: "msg_1".to_owned(),
        created_at: 1,
        client_model: "m".to_owned(),
        upstream_model: "u".to_owned(),
        stream: true,
        store: true,
        parallel_tool_calls: true,
        instructions: None,
        metadata: json("{}"),
        tool_choice: json(r#""auto""#),
        tools: vec![],
        max_output_tokens: None,
        max_tool_calls: None,
        hosted_output_items: Vec::new(),
        previous_response_id: None,
        truncation: "auto".to_owned(),
        temperature: None,
        top_p: None,
        skip_reasoning_output: false,
    }
}

fn names(events: &[StreamEvent]) -> Vec<String> {
    events.iter().map(|e| e.name.clone()).collect()
}

fn run(session: &mut StreamSession, bytes: &str, events: &mut Vec<StreamEvent>) {
    session.accept(false, Ok(bytes.as_bytes().to_vec()));
    while session.has_pending() {
        events.append(&mut session.advance(false));
    }
}

#[test]
fn events_are_numbered_and_named() {
    let mut sequence: u64 = 0;
    let event = json_event("x", &mut sequence, object().with("type", JsonValue::text("x")));
    assert_eq!(sequence, 1);
    assert_eq!(event.name, "x");
    assert_eq!(event.data(), r#"{"sequence_number":0,"type":"x"}"#);
}

#[test]
fn finished_turns_close_their_items() {
    let turn = AssistantTurn {
        reasoning: "r".to_owned(),
        text: "t".to_owned(),
        tool_calls: vec![ToolCall {
            call_id: "call_1".to_owned(),
            name: "lookup".to_owned(),
            arguments: "{}".to_owned(),
        }],
    };
    let mut sequence: u64 = 0;
    let events = finalize_stream_items(&turn, &context(), &mut sequence);
    assert_eq!(events.len(), 7);
    assert_eq!(sequence, 7);

    let response = to_serde(&build_response(&context(), &turn, json("{}"), 5));
    let output = response["output"].as_array().unwrap();
    let done: Vec<&StreamEvent> =
        events.iter().filter(|e| e.name == "response.output_item.done").collect();
    assert_eq!(done.len(), 3);
    assert_eq!(done.len(), output.len());
    for (i, event) in done.iter().enumerate() {
        let payload = to_serde(&event.payload);
        assert_eq!(payload["output_index"], i);
        assert_eq!(payload["item"], output[i]);
    }
}

#[test]
fn chunks_build_up_a_turn() {
    let mut state = StreamState::new();
    assert!(state.has_message());
    let events = apply_stream_delta(
        &mut state,
        &json(
            r#"{"choices":[{"delta":{
                "reasoning_summary":[{"text":"a"}],
                "content":[{"text":"b"}],
                "tool_calls":[
                    {"index":0,"id":"call_1","function":{"name":"lookup","arguments":"{"}},
                    {"index":0,"function":{"arguments":"}"}}
                ]}}]}"#,
        ),
        &context(),
        &mut 0,
    );
    assert_eq!(
        names(&events),
        vec![
            "response.output_item.added",
            "response.reasoning_summary_text.delta",
            "response.output_item.added",
            "response.content_part.added",
            "response.output_text.delta",
            "response.output_item.added",
            "response.function_call_arguments.delta",
            "response.function_call_arguments.delta",
        ]
    );
    let turn = state.take_turn();
    assert_eq!(turn.reasoning, "a");
    assert_eq!(turn.text, "b");
    assert_eq!(turn.tool_calls[0].arguments, "{}");

    assert!(apply_stream_delta(&mut StreamState::new(), &json("{}"), &context(), &mut 0).is_empty());
    assert!(apply_stream_delta(
        &mut StreamState::new(),
        &json(r#"{"choices":[{}]}"#),
        &context(),
        &mut 0
    )
    .is_empty());
}

#[test]
fn incomplete_calls_are_not_announced() {
    let mut state = StreamState::new();
    let events = apply_stream_delta(
        &mut state,
        &json(r#"{"choices":[{"delta":{"reasoning":"","content":1,"tool_calls":[{"id":"call_2"}]}}]}"#),
        &context(),
        &mut 0,
    );
    assert!(events.is_empty());
    let events = apply_stream_delta(
        &mut state,
        &json(
            r#"{"choices":[{"delta":{"reasoning":"x","tool_calls":[
                {"id":"call_3","function":{"name":"lookup","arguments":{"x":1}}},
                {"id":"call_4","function":{"name":"noop"}}]}}]}"#,
        ),
        &context(),
        &mut 0,
    );
    assert!(!events.is_empty());
    assert_eq!(state.to_turn().tool_calls.len(), 1);
    assert_eq!(state.to_turn().tool_calls[0].call_id, "call_4");
}

#[test]
fn calls_are_kept_by_index() {
    let mut state = StreamState::new();
    for (index, id) in [(5, "c5"), (1, "c1"), (3, "c3")] {
        apply_stream_delta(
            &mut state,
            &json(&format!(
                r#"{{"choices":[{{"delta":{{"tool_calls":[{{"index":{index},"id":"{id}","function":{{"name":"f","arguments":""}}}}]}}}}]}}"#
            )),
            &context(),
            &mut 0,
        );
    }
    let ids: Vec<String> = state.to_turn().tool_calls.iter().map(|c| c.call_id.clone()).collect();
    assert_eq!(ids, vec!["c1", "c3", "c5"]);
}

#[test]
fn events_are_cut_out_of_the_byte_stream() {
    let mut parser = SseParser::default();
    assert_eq!(parser.push("data: first\n\n").len(), 1);
    assert!(parser.push("data: second").is_empty());
    assert_eq!(parser.push("\n\n").len(), 1);
    assert_eq!(parse_sse_event("event: x\n\n"), None);
    assert_eq!(parse_sse_event("data: a\ndata: b\n\n").as_deref(), Some("a\nb"));
}

#[test]
fn the_cut_of_chunks_does_not_matter() {
    let text = "data: one\n\nid: 7\ndata: two\r\n\r\n: note\n\ndata: three\n\ndata: rest";
    let mut whole = SseParser::default();
    let expected = whole.push(text);
    for cut in 0..text.len() {
        let mut parser = SseParser::default();
        let mut events = parser.push(&text[..cut]);
        events.append(&mut parser.push(&text[cut..]));
        assert_eq!(events, expected);
    }
}

#[test]
fn tests_stream_reasoning_events_are_emitted() {
    let (mut session, mut events) = StreamSession::open(context());
    run(
        &mut session,
        "data: {\"choices\":[{\"delta\":{\"reasoning_content\":\"Think \"}}]}\n\ndata: {\"choices\":[{\"delta\":{\"reasoning_content\":\"carefully.\",\"content\":\"Final\"}}]}\n\ndata: {\"choi",
        &mut events,
    );
    run(
        &mut session,
        "ces\":[{\"delta\":{\"content\":\" answer\"}}],\"usage\":{\"prompt_tokens\":11,\"completion_tokens\":4,\"total_tokens\":15}}\n\ndata: [DONE]\n\ndata: {}\n\n",
        &mut events,
    );
    assert!(session.is_over());
    let mut closed = session.close(77);
    events.append(&mut closed.events);
    let seen = names(&events);
    assert_eq!(seen[0], "response.created");
    assert!(seen.contains(&"response.reasoning_summary_text.delta".to_owned()));
    assert!(seen.contains(&"response.reasoning_summary_text.done".to_owned()));
    assert_eq!(seen.last().unwrap(), "response.completed");
    assert_eq!(closed.end, AnswerEnd::Completed);
    let response = to_serde(&closed.response);
    assert_eq!(response["output_text"], "Final answer");
    assert_eq!(response["output"][0]["type"], "reasoning");
    assert_eq!(response["output"][1]["type"], "message");
    assert_eq!(response["usage"]["total_tokens"], 15);
    assert_eq!(response["completed_at"], 77);
    for (i, event) in events.iter().enumerate() {
        assert_eq!(to_serde(&event.payload)["sequence_number"], i as u64);
    }
    let mut pieces = String::new();
    for event in &events {
        if event.name == "response.output_text.delta" {
            pieces.push_str(to_serde(&event.payload)["delta"].as_str().unwrap());
        }
    }
    assert_eq!(pieces, "Final answer");
}

#[test]
fn hosted_items_come_first() {
    let mut c = context();
    c.hosted_output_items = vec![json(r#"{"id":"ws_1","type":"web_search_call"}"#)];
    let (session, events) = StreamSession::open(c);
    assert_eq!(
        names(&events),
        vec!["response.created", "response.output_item.added", "response.output_item.done"]
    );
    assert_eq!(to_serde(&events[1].payload)["item"]["id"], "ws_1");
    let closed = session.close(1);
    assert_eq!(to_serde(&closed.response)["output"][0]["id"], "ws_1");
}

#[test]
fn streaming_failure_paths_are_reported() {
    let (mut session, mut events) = StreamSession::open(context());
    run(&mut session, "data: {not-json}\n\n", &mut events);
    assert!(session.is_over());
    let closed = session.close(1);
    assert!(matches!(&closed.end, AnswerEnd::Failed(m) if m.starts_with("failed to parse upstream SSE JSON: ")));
    assert_eq!(names(&closed.events), vec!["response.failed"]);
    let response = to_serde(&closed.response);
    assert_eq!(response["status"], "failed");
    assert_eq!(response["error"]["code"], "upstream_stream_error");

    let refused = parse_assistant_turn_from_response(&json(r#"{"not_choices":true}"#)).unwrap_err();
    assert_eq!(refused.status_code(), 400);

    let (mut broken, _) = StreamSession::open(context());
    broken.accept(false, Err("connection reset".to_owned()));
    let closed = broken.close(1);
    assert_eq!(closed.end, AnswerEnd::Failed("connection reset".to_owned()));
}

#[test]
fn cancelled_streams_end_as_cancelled() {
    let (mut session, mut events) = StreamSession::open(context());
    run(&mut session, "data: {\"choices\":[{\"delta\":{\"content\":\"Half\"}}]}\n\n", &mut events);
    session.accept(true, Ok(b"data: {\"choices\":[{\"delta\":{\"content\":\" more\"}}]}\n\n".to_vec()));
    assert!(session.is_over());
    assert!(!session.has_pending());
    let closed = session.close(5);
    assert_eq!(closed.end, AnswerEnd::Cancelled);
    assert_eq!(names(&closed.events), vec!["response.completed"]);
    let response = to_serde(&closed.response);
    assert_eq!(response["status"], "cancelled");
    assert_eq!(response["output_text"], "Half");
}

#[test]
fn broken_bytes_are_replaced() {
    let (mut session, _) = StreamSession::open(context());
    let mut bytes = b"data: {\"choices\":[{\"delta\":{\"content\":\"a".to_vec();
    bytes.push(0xff);
    bytes.extend_from_slice(b"b\"}}]}\n\n");
    session.accept(false, Ok(bytes));
    while session.has_pending() {
        session.advance(false);
    }
    let closed = session.close(5);
    assert_eq!(to_serde(&closed.response)["output_text"], "a\u{fffd}b");
}

#[test]
fn streams_are_whole() {
    let pieces = [
        "data: {\"choices\":[{\"delta\":{\"reasoning\":\"r\",\"content\":\"a\"}}]}\n\ndata: {\"choi",
        "ces\":[{\"delta\":{\"tool_calls\":[{\"index\":0,\"id\":\"c\",\"function\":{\"name\":\"n\",\"arguments\":\"{}\"}}]}}]}\n\n",
    ];
    for (last, name) in [
        (Some("data: [DONE]\n\n"), "response.completed"),
        (Some("data: {\n\n"), "response.failed"),
        (None, "response.failed"),
    ] {
        let mut asked = context();
        asked.hosted_output_items.push(json(r#"{"id":"ws_1","type":"web_search_call"}"#));
        let (mut session, mut events) = StreamSession::open(asked);
        for piece in pieces {
            run(&mut session, piece, &mut events);
        }
        match last {
            Some(bytes) => run(&mut session, bytes, &mut events),
            None => session.accept(false, Err("reset".to_owned())),
        }
        events.append(&mut session.close(9).events);
        let names = names(&events);
        assert_eq!(names[0], "response.created");
        assert_eq!(names.last().unwrap(), name);
        let whole = ["response.created", "response.completed", "response.failed"];
        assert_eq!(names.iter().filter(|n| whole.contains(&n.as_str())).count(), 2);
        for (i, event) in events.iter().enumerate() {
            assert_eq!(to_serde(&event.payload)["sequence_number"], i);
        }
    }
}
