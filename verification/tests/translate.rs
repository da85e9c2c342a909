use cc2rep::codec::{display, encode, parse, to_serde};
use cc2rep::config::Settings;
use cc2rep::conversation::{build_messages, upstream_content_from_parts};
use cc2rep::error::ProxyError;
use cc2rep::json::{object, JsonValue, Object};
use cc2rep::normalize::{normalize_content_parts, normalize_input_item};
use cc2rep::number::JsonNumber;
use cc2rep::probe::Capabilities;
use cc2rep::protocol::analyze_protocol;
use cc2rep::reasoning::stringify_json_value;
use cc2rep::table::Table;
use cc2rep::text::{contains, decimal_text, join, same_text, trim};
use cc2rep::toolset::{normalize_tool_choice, normalize_tools};
use cc2rep::translate::{
    build_cancelled_response, build_failed_response, build_history_message,
    extract_first_reasoning, fresh_response_ids, function_item_id, optional_bool, optional_u64,
    parse_assistant_turn_from_response, translate_request, unix_timestamp, AssistantTurn,
    TranslatedRequest,
};
use cc2rep::upstream::{
    after_reply, is_success_status, retry_delay_ms, retry_without_tool_choice, transport_error,
    SendStep,
};

fn json(text: &str) -> JsonValue {
    parse(text).expect("json")
}

fn members(text: &str) -> Object {
    match json(text) {
        JsonValue::Object(o) => o,
        other => panic!("no object: {other:?}"),
    }
}

fn settings() -> Settings {
    Settings {
        proxy_host: "127.0.0.1".to_owned(),
        proxy_port: 8800,
        proxy_api_key: "proxy-secret".to_owned(),
        upstream_base_url: "http://127.0.0.1:1".to_owned(),
        upstream_chat_path: "/v1/chat/completions".to_owned(),
        upstream_model: "deepseek-chat".to_owned(),
        upstream_api_key: "upstream-secret".to_owned(),
        upstream_headers: Table::new(),
        upstream_api_key_header_name: "Authorization".to_owned(),
        upstream_api_key_prefix: "Bearer ".to_owned(),
        request_timeout_seconds: JsonNumber::from_i64(10),
        strict_protocol: false,
        upstream_supports_image_input: false,
        upstream_supports_reasoning_content: None,
        upstream_supports_tool_choice_required: None,
        upstream_supports_named_tool_choice: None,
        response_ttl_seconds: 3600,
        drop_input_reasoning: false,
        drop_tools: false,
        upstream_body: object(),
        model_aliases: Table::new(),
        local_tools: Table::new(),
        max_auto_tool_rounds: 8,
        upstream_max_retries: 0,
        upstream_retry_base_delay_ms: 0,
        upstream_reasoning_effort_field: "reasoning_effort".to_owned(),
        web_search_url: None,
        web_search_max_results: 5,
        file_search_paths: Vec::new(),
        file_search_max_results: 5,
    }
}

fn caps(all: bool) -> Capabilities {
    Capabilities {
        supports_named_tool_choice: all,
        supports_tool_choice_required: all,
        supports_reasoning_content: all,
        supports_image_input: all,
        supports_reasoning_effort: all,
    }
}

fn translate(settings: &Settings, all: bool, body: &str) -> Result<TranslatedRequest, ProxyError> {
    let payload = members(body);
    let report = analyze_protocol(&payload);
    translate_request(&payload, settings, &report, &Vec::new(), &caps(all))
}

#[test]
fn instructions_come_first() {
    let t = translate(&settings(), false, r#"{"input":"hi","instructions":"Be brief."}"#).unwrap();
    let payload = to_serde(&t.upstream_payload);
    assert_eq!(payload["messages"][0]["role"], "system");
    assert_eq!(payload["messages"][0]["content"], "Be brief.");
    assert_eq!(payload["messages"][1]["content"], "hi");
    assert_eq!(payload["messages"].as_array().unwrap().len(), t.request_messages.len());
}

#[test]
fn sampling_options_are_passed_on() {
    let t = translate(&settings(), false, r#"{"input":"hi","temperature":0.5,"top_p":0.9}"#).unwrap();
    let payload = to_serde(&t.upstream_payload);
    assert_eq!(payload["temperature"], 0.5);
    assert_eq!(payload["top_p"], 0.9);
    assert!(t.context.temperature.is_some());
    let t = translate(&settings(), false, r#"{"input":"hi","max_output_tokens":0,"stop":["3"]}"#)
        .unwrap();
    let payload = to_serde(&t.upstream_payload);
    assert!(payload.get("max_tokens").is_none());
    assert_eq!(payload["stop"][0], "3");
    let t = translate(&settings(), false, r#"{"input":"hi","max_output_tokens":7}"#).unwrap();
    assert_eq!(to_serde(&t.upstream_payload)["max_tokens"], 7);
}

#[test]
fn aliased_models_are_asked_for_upstream() {
    let mut settings = settings();
    settings.model_aliases.insert("gpt-5-codex".to_owned(), "deepseek-v4-pro".to_owned());
    settings.upstream_body = members(r#"{"model":"other","stream":true,"seed":7}"#);
    let t = translate(&settings, false, r#"{"model":"gpt-5-codex","input":"hi"}"#).unwrap();
    let payload = to_serde(&t.upstream_payload);
    assert_eq!(payload["model"], "deepseek-v4-pro");
    assert_eq!(payload["stream"], false);
    assert_eq!(payload["seed"], 7);
    assert_eq!(t.context.client_model, "gpt-5-codex");
    assert_eq!(t.context.upstream_model, "deepseek-v4-pro");
}

#[test]
fn items_behind_a_refused_one_are_not_looked_at() {
    let items = vec![json(r#"{"type":"unknown"}"#), json(r#"{"type":"function_call"}"#)];
    let refused =
        build_messages(&Vec::new(), &items, None, &settings(), &caps(true)).unwrap_err();
    assert_eq!(
        refused,
        ProxyError::BadRequest("unsupported normalized input item type `unknown`".to_owned())
    );
}

#[test]
fn input_is_required() {
    let refused = translate(&settings(), false, r#"{"model":"m"}"#).unwrap_err();
    assert_eq!(refused.status_code(), 400);
}

#[test]
fn dropped_tools_do_not_go_upstream() {
    let mut s = settings();
    s.drop_tools = true;
    let t = translate(
        &s,
        true,
        r#"{"input":"hi","tools":[{"type":"function","name":"f"}],"tool_choice":"required"}"#,
    )
    .unwrap();
    let payload = to_serde(&t.upstream_payload);
    assert!(payload.get("tools").is_none());
    assert!(payload.get("tool_choice").is_none());
    assert!(t.context.tools.is_empty());
}

#[test]
fn unsupported_text_formats_are_refused() {
    let refused =
        translate(&settings(), false, r#"{"input":"x","text":{"format":{"type":"json_schema"}}}"#)
            .unwrap_err();
    assert_eq!(
        refused,
        ProxyError::BadRequest("text.format.type `json_schema` is not supported".to_owned())
    );
    assert!(translate(&settings(), false, r#"{"input":"x","text":{"format":{"type":"text"}}}"#).is_ok());
}

#[test]
fn options_are_checked() {
    assert_eq!(optional_bool(&members(r#"{"a":true}"#), "a"), Ok(Some(true)));
    assert_eq!(optional_bool(&members(r#"{"a":null}"#), "a"), Ok(None));
    assert_eq!(
        optional_bool(&members(r#"{"a":1}"#), "a"),
        Err(ProxyError::BadRequest("a must be a boolean".to_owned()))
    );
    assert_eq!(optional_u64(&members(r#"{"a":7}"#), "a"), Ok(Some(7)));
    assert_eq!(
        optional_u64(&members(r#"{"a":-7}"#), "a"),
        Err(ProxyError::BadRequest("a must be a positive integer".to_owned()))
    );
    assert_eq!(
        optional_u64(&members(r#"{"a":"7"}"#), "a"),
        Err(ProxyError::BadRequest("a must be a number".to_owned()))
    );
}

#[test]
fn fresh_identifiers_have_their_prefixes() {
    let a = fresh_response_ids();
    let b = fresh_response_ids();
    assert!(a.response_id.starts_with("resp_") && a.response_id.len() == 5 + 32);
    assert!(a.reasoning_id.starts_with("rs_"));
    assert!(a.message_id.starts_with("msg_"));
    assert_ne!(a.response_id, b.response_id);
    assert!(unix_timestamp() > 1_500_000_000);
}

#[test]
fn answers_without_call_identifiers_get_fresh_ones() {
    let turn = parse_assistant_turn_from_response(&json(
        r#"{"choices":[{"message":{"content":[{"type":"text","text":"a"},{"text":"b"}],"tool_calls":[{"function":{"name":"f","arguments":"{}"}}]}}]}"#,
    ))
    .unwrap();
    assert_eq!(turn.text, "ab");
    assert!(turn.tool_calls[0].call_id.starts_with("call_"));
    assert!(parse_assistant_turn_from_response(&json(r#"{"choices":[]}"#)).is_err());
    assert_eq!(function_item_id("call_1"), "fc_call_1");
}

#[test]
fn history_keeps_what_was_said() {
    let silent =
        AssistantTurn { reasoning: String::new(), text: String::new(), tool_calls: vec![] };
    assert!(build_history_message(&silent).is_none());
    let spoken = AssistantTurn { text: "hi".to_owned(), ..silent };
    let message = to_serde(&build_history_message(&spoken).unwrap());
    assert_eq!(message["role"], "assistant");
    assert_eq!(message["content"], "hi");
}

#[test]
fn ended_responses_say_how_they_ended() {
    let t = translate(&settings(), false, r#"{"input":"hi"}"#).unwrap();
    let turn =
        AssistantTurn { reasoning: String::new(), text: "half".to_owned(), tool_calls: vec![] };
    let cancelled = to_serde(&build_cancelled_response(&t.context, &turn, json("{}"), 4));
    assert_eq!(cancelled["status"], "cancelled");
    assert_eq!(cancelled["incomplete_details"]["reason"], "cancelled");
    let failed = to_serde(&build_failed_response(&t.context, &turn, 4, "boom", "code"));
    assert_eq!(failed["status"], "failed");
    assert_eq!(failed["error"]["message"], "boom");
    assert_eq!(failed["error"]["code"], "code");
}

#[test]
fn input_items_are_normalized() {
    let item = normalize_input_item(
        &json(r#"{"role":"user","content":"hi"}"#),
        &settings(),
        &caps(false),
    )
    .unwrap();
    assert_eq!(to_serde(&item)["type"], "message");
    assert_eq!(to_serde(&item)["content"][0]["text"], "hi");
    assert!(normalize_input_item(&json("7"), &settings(), &caps(false)).is_err());
    assert!(normalize_input_item(&json(r#"{"type":"mystery"}"#), &settings(), &caps(false)).is_err());
    let parts = normalize_content_parts(&json(r#"[{"type":"input_text","text":"a"}]"#), false).unwrap();
    assert_eq!(to_serde(&upstream_content_from_parts(&parts)), "a");
}

#[test]
fn tool_choices_follow_the_capabilities() {
    let named = json(r#"{"type":"function","name":"f"}"#);
    let kept = normalize_tool_choice(Some(&named), &caps(true)).unwrap();
    assert_eq!(to_serde(&kept)["function"]["name"], "f");
    let weakened = normalize_tool_choice(Some(&named), &caps(false)).unwrap();
    assert_eq!(to_serde(&weakened), "auto");
    let tools = normalize_tools(Some(&json(
        r#"[{"type":"function","name":"f","parameters":{}},{"type":"namespace","tools":[{"type":"function","name":"g"}]}]"#,
    )))
    .unwrap();
    assert_eq!(tools.len(), 2);
    assert_eq!(to_serde(&tools[1])["function"]["name"], "g");
}

#[test]
fn reasoning_is_found_in_its_places() {
    assert_eq!(
        extract_first_reasoning(&members(r#"{"reasoning_content":"a"}"#)).as_deref(),
        Some("a")
    );
    assert_eq!(extract_first_reasoning(&members(r#"{"reasoning_content":""}"#)), None);
    assert_eq!(stringify_json_value(&json(r#"{"a":[1]}"#)).unwrap(), r#"{"a":[1]}"#);
    assert_eq!(stringify_json_value(&json(r#""a""#)).unwrap(), "a");
}

#[test]
fn patience_is_limited() {
    assert!(matches!(
        after_reply(429, String::new(), 0, 2, 100),
        SendStep::Retry { attempt: 1, delay_ms: 100 }
    ));
    assert!(matches!(
        after_reply(429, String::new(), 1, 2, 100),
        SendStep::Retry { attempt: 2, delay_ms: 200 }
    ));
    assert!(matches!(
        after_reply(429, "slow down".to_owned(), 2, 2, 100),
        SendStep::Fail(ProxyError::Upstream { status: 429, message }) if message == "slow down"
    ));
    assert!(matches!(after_reply(200, String::new(), 0, 2, 100), SendStep::Accept));
    assert_eq!(retry_delay_ms(100, 4), 800);
    assert!(is_success_status(204) && !is_success_status(301));
    assert_eq!(
        transport_error(true, "t".to_owned()),
        ProxyError::Timeout("t".to_owned())
    );
    assert_eq!(
        transport_error(false, "t".to_owned()),
        ProxyError::Transport("t".to_owned())
    );
}

#[test]
fn a_refused_tool_choice_is_given_up() {
    let refused = ProxyError::Upstream { status: 400, message: "tool_choice is bad".to_owned() };
    let payload = json(r#"{"model":"m","tool_choice":"required","messages":[]}"#);
    let retry = to_serde(&retry_without_tool_choice(&payload, &refused).expect("retry"));
    assert_eq!(retry["model"], "m");
    assert!(retry.get("tool_choice").is_none());
    for error in [
        ProxyError::Upstream { status: 400, message: "bad model".to_owned() },
        ProxyError::Upstream { status: 500, message: "tool_choice".to_owned() },
        ProxyError::BadRequest("tool_choice".to_owned()),
    ] {
        assert!(retry_without_tool_choice(&payload, &error).is_none());
    }
}

#[test]
fn values_keep_their_numbers() {
    for text in ["0", "-1", "18446744073709551615", "1.5", "[1,{\"a\":null}]", "-9223372036854775808"] {
        assert_eq!(encode(&json(text)).unwrap(), text);
        assert_eq!(display(&json(text)), text);
    }
    assert_eq!(json("7").as_u64(), Some(7));
    assert_eq!(json("-7").as_i64(), Some(-7));
    assert_eq!(json("-7").as_u64(), None);
    assert_eq!(json("1.5").as_i64(), None);
    assert!(parse("{").is_err());
}

#[test]
fn texts_are_handled_by_character() {
    assert_eq!(trim("\u{3000} ä b \n"), "ä b");
    assert!(same_text("ä", "ä") && !same_text("a", "ä"));
    assert!(contains("straße", "aß") && !contains("a", "ab"));
    assert_eq!(join(&vec!["a".to_owned(), "b".to_owned()], ", "), "a, b");
    assert_eq!(decimal_text(18446744073709551615), "18446744073709551615");
}
