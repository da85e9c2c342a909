use std::sync::Arc;

use cc2rep::codec::{parse, to_serde};
use cc2rep::config::{LocalToolSettings, Settings};
use cc2rep::error::ProxyError;
use cc2rep::json::object;
use cc2rep::number::JsonNumber;
use cc2rep::table::Table;
use cc2rep::tools::{
    append_tool_outputs, append_tool_turn, build_stdin_payload, conclude_call,
    normalize_tool_json_output, output_items_from_tool_outputs, parse_arguments, prepare_call,
    CallStep, ToolExecutor, ToolExit, ToolOutput,
};
use cc2rep::translate::ToolCall;

fn tool(stdin_json: bool, output_json: bool) -> LocalToolSettings {
    LocalToolSettings {
        command: "sh".to_owned(),
        args: vec![],
        env: Table::new(),
        workdir: None,
        timeout_seconds: JsonNumber::from_i64(5),
        stdin_json,
        output_json,
    }
}

fn executor(names: &[&str]) -> ToolExecutor {
    let mut local_tools: Table<LocalToolSettings> = Table::new();
    for name in names {
        local_tools.insert(name.to_string(), tool(true, true));
    }
    ToolExecutor::new(Arc::new(Settings {
        proxy_host: "127.0.0.1".to_owned(),
        proxy_port: 8080,
        proxy_api_key: "proxy-key".to_owned(),
        upstream_base_url: "http://127.0.0.1".to_owned(),
        upstream_chat_path: "/v1/chat/completions".to_owned(),
        upstream_model: "m".to_owned(),
        upstream_api_key: "k".to_owned(),
        upstream_headers: Table::new(),
        upstream_api_key_header_name: "Authorization".to_owned(),
        upstream_api_key_prefix: "Bearer ".to_owned(),
        request_timeout_seconds: JsonNumber::from_i64(10),
        strict_protocol: false,
        upstream_supports_image_input: false,
        upstream_supports_reasoning_content: None,
        upstream_supports_tool_choice_required: None,
        upstream_supports_named_tool_choice: None,
        response_ttl_seconds: 3600,
        drop_input_reasoning: false,
        drop_tools: false,
        upstream_body: object(),
        model_aliases: Table::new(),
        local_tools,
        max_auto_tool_rounds: 8,
        upstream_max_retries: 0,
        upstream_retry_base_delay_ms: 0,
        upstream_reasoning_effort_field: "reasoning_effort".to_owned(),
        web_search_url: None,
        web_search_max_results: 5,
        file_search_paths: Vec::new(),
        file_search_max_results: 5,
    }))
}

fn call(id: &str, name: &str, arguments: &str) -> ToolCall {
    ToolCall { call_id: id.to_owned(), name: name.to_owned(), arguments: arguments.to_owned() }
}

fn output(id: &str, text: &str) -> ToolOutput {
    ToolOutput { call_id: id.to_owned(), output: text.to_owned() }
}

fn exited(success: bool, stdout: &str, stderr: &str) -> ToolExit {
    ToolExit::Exited {
        success,
        status: "exit status: 3".to_owned(),
        stdout: stdout.as_bytes().to_vec(),
        stderr: stderr.as_bytes().to_vec(),
    }
}

#[test]
fn parse_arguments_and_json_output_are_normalized() {
    assert_eq!(to_serde(&parse_arguments("").expect("empty")).to_string(), "{}");
    assert_eq!(to_serde(&parse_arguments("{\"x\":1}").expect("json"))["x"], 1);
    assert!(parse_arguments("{").is_err());

    assert_eq!(normalize_tool_json_output("").expect("empty"), "{}");
    assert_eq!(normalize_tool_json_output("{\"x\":1}").expect("json"), "{\"x\":1}");
    assert!(normalize_tool_json_output("{").is_err());
}

#[test]
fn append_tool_outputs_builds_assistant_and_tool_messages() {
    let mut messages = vec![];
    let tool_calls = vec![call("call_1", "lookup", "{\"q\":\"v\"}")];
    let outputs = vec![output("call_1", "{\"ok\":true}")];
    append_tool_outputs(&mut messages, &tool_calls, &outputs);
    assert_eq!(messages.len(), 2);
    assert_eq!(to_serde(&messages[0])["role"], "assistant");
    assert_eq!(to_serde(&messages[1])["role"], "tool");
    assert_eq!(to_serde(&messages[1])["content"], "{\"ok\":true}");
    assert_eq!(
        to_serde(&output_items_from_tool_outputs(&outputs)[0])["type"],
        "function_call_output"
    );
}

#[test]
fn every_call_is_answered_in_order() {
    let mut messages = vec![parse(r#"{"role":"user","content":"hi"}"#).unwrap()];
    let calls = vec![call("call_1", "a", "{}"), call("call_2", "b", "{}")];
    append_tool_turn(&mut messages, &calls, &vec![output("call_2", "two")], "Because.");
    assert_eq!(messages.len(), 4);
    assert_eq!(to_serde(&messages[1])["reasoning_content"], "Because.");
    assert_eq!(to_serde(&messages[1])["tool_calls"][1]["id"], "call_2");
    assert_eq!(to_serde(&messages[2])["tool_call_id"], "call_1");
    assert_eq!(to_serde(&messages[2])["content"], "{}");
    assert_eq!(to_serde(&messages[3])["tool_call_id"], "call_2");
    assert_eq!(to_serde(&messages[3])["content"], "two");

    let mut plain = vec![];
    append_tool_turn(&mut plain, &calls, &vec![], "");
    assert!(to_serde(&plain[0]).get("reasoning_content").is_none());
}

#[test]
fn only_local_tools_are_supported() {
    let none = executor(&[]);
    assert!(!none.has_local_tools());
    let some = executor(&["a"]);
    assert!(some.has_local_tools());
    assert!(some.supports_tool("a"));
    assert!(!some.supports_tool("b"));
    let calls = vec![call("1", "a", ""), call("2", "b", ""), call("3", "a", "")];
    let supported = some.supported_calls(&calls);
    assert_eq!(supported.len(), 2);
    assert_eq!(supported[1].call_id, "3");
}

#[test]
fn calls_are_run_one_after_the_other() {
    let e = executor(&["a"]);
    assert!(matches!(e.next_call(&vec![], 0), Ok(CallStep::Unsupported)));
    let calls = vec![call("1", "a", "{\"x\":1}"), call("2", "b", "{}")];
    match e.next_call(&calls, 0) {
        Ok(CallStep::Run(run)) => {
            assert_eq!(to_serde(&run.arguments)["x"], 1);
            let payload = parse(&run.stdin_payload.unwrap()).unwrap();
            assert_eq!(to_serde(&payload)["name"], "a");
            assert_eq!(to_serde(&payload)["call_id"], "1");
            assert_eq!(to_serde(&payload)["arguments"]["x"], 1);
        }
        other => panic!("{other:?}"),
    }
    assert!(matches!(e.next_call(&calls, 1), Ok(CallStep::Unsupported)));
    assert!(matches!(e.next_call(&vec![call("1", "a", "")], 1), Ok(CallStep::Done)));
    assert!(matches!(
        e.next_call(&vec![call("1", "a", "{")], 0),
        Err(ProxyError::BadRequest(_))
    ));
}

#[test]
fn standard_input_is_only_written_where_asked_for() {
    let arguments = parse("{}").unwrap();
    assert!(build_stdin_payload(&tool(false, true), "a", "1", &arguments).is_none());
    let prepared = prepare_call(&call("1", "a", ""), &tool(false, true)).unwrap();
    assert!(prepared.stdin_payload.is_none());
}

#[test]
fn the_end_of_a_tool_decides_its_output() {
    let c = call("1", "a", "{}");
    let arguments = parse("{}").unwrap();
    let json = conclude_call(&c, &tool(true, true), &arguments, &exited(true, " {\"ok\": 1} \n", ""))
        .unwrap();
    assert_eq!(json, output("1", "{\"ok\":1}"));
    let text =
        conclude_call(&c, &tool(true, false), &arguments, &exited(true, "plain\n", "")).unwrap();
    assert_eq!(text.output, "plain");
    let broken = conclude_call(&c, &tool(true, true), &arguments, &exited(true, "{", ""));
    assert!(matches!(broken, Err(ProxyError::BadRequest(_))));
    for exit in [
        exited(false, "", "went wrong"),
        ToolExit::SpawnFailed("no sh".to_owned()),
        ToolExit::StdinUnavailable,
        ToolExit::StdinWriteFailed("x".to_owned()),
        ToolExit::StdinFlushFailed("x".to_owned()),
        ToolExit::TimedOut,
        ToolExit::WaitFailed("x".to_owned()),
    ] {
        assert!(conclude_call(&c, &tool(true, true), &arguments, &exit).is_err());
    }
    let failed = conclude_call(&c, &tool(true, true), &arguments, &exited(false, "", "went wrong"))
        .unwrap_err();
    assert!(failed.message().contains("went wrong"));
}

#[test]
fn calls_can_be_run_side_by_side() {
    let e = executor(&["a"]);
    assert!(e.prepare_calls(&vec![]).unwrap().is_none());
    assert!(e.prepare_calls(&vec![call("1", "a", "{}"), call("2", "b", "{}")]).unwrap().is_none());
    assert!(e.prepare_calls(&vec![call("1", "a", "{}"), call("2", "a", "{")]).is_err());
    let calls = vec![call("1", "a", "{\"x\":1}"), call("2", "a", "")];
    let runs = e.prepare_calls(&calls).unwrap().expect("runs");
    assert_eq!(runs.len(), 2);
    assert_eq!(to_serde(&runs[0].arguments)["x"], 1);
    let exits = vec![exited(true, "{\"n\":1}", ""), exited(true, "", "")];
    let outputs = e.conclude_calls(&calls, &runs, &exits).unwrap();
    assert_eq!(outputs, vec![output("1", "{\"n\":1}"), output("2", "{}")]);
    let failed = vec![exited(true, "{", ""), ToolExit::TimedOut];
    assert!(matches!(
        e.conclude_calls(&calls, &runs, &failed),
        Err(ProxyError::BadRequest(m)) if m.starts_with("local tool output must be valid JSON")
    ));
}
