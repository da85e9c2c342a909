use cc2rep::codec::to_serde;
use cc2rep::config::Settings;
use cc2rep::json::object;
use cc2rep::number::JsonNumber;
use cc2rep::probe::{
    check_reasoning_support, fmt_bool, is_reasoning_model, models_of_reply, models_url,
    parse_model_list, run_probe, suggest_aliases, with_open_capabilities, Capabilities, ModelInfo,
    Probe, ProbeAction, ProbeReplies, ProbeReply, ProbeReport,
};
use cc2rep::table::Table;

fn settings() -> Settings {
    Settings {
        proxy_host: "127.0.0.1".to_owned(),
        proxy_port: 8800,
        proxy_api_key: "proxy-secret".to_owned(),
        upstream_base_url: "http://127.0.0.1:1/".to_owned(),
        upstream_chat_path: "/v1/chat/completions".to_owned(),
        upstream_model: "m".to_owned(),
        upstream_api_key: "k".to_owned(),
        upstream_headers: Table::new(),
        upstream_api_key_header_name: "Authorization".to_owned(),
        upstream_api_key_prefix: "Bearer ".to_owned(),
        request_timeout_seconds: JsonNumber::from_i64(10),
        strict_protocol: false,
        upstream_supports_image_input: true,
        upstream_supports_reasoning_content: None,
        upstream_supports_tool_choice_required: None,
        upstream_supports_named_tool_choice: None,
        response_ttl_seconds: 3600,
        drop_input_reasoning: false,
        drop_tools: false,
        upstream_body: object(),
        model_aliases: Table::new(),
        local_tools: Table::new(),
        max_auto_tool_rounds: 8,
        upstream_max_retries: 0,
        upstream_retry_base_delay_ms: 0,
        upstream_reasoning_effort_field: "reasoning_effort".to_owned(),
        web_search_url: None,
        web_search_max_results: 5,
        file_search_paths: Vec::new(),
        file_search_max_results: 5,
    }
}

fn answered(status: u16, body: &str) -> ProbeReply {
    ProbeReply::Answered { status, body: body.to_owned() }
}

fn none() -> Capabilities {
    Capabilities {
        supports_named_tool_choice: false,
        supports_tool_choice_required: false,
        supports_reasoning_content: false,
        supports_image_input: false,
        supports_reasoning_effort: false,
    }
}

#[test]
fn parse_model_list_extracts_ids() {
    let body = r#"{"data":[{"id":"deepseek-chat","object":"model"},{"id":"deepseek-reasoner","object":"model"}]}"#;
    let models = parse_model_list(body);
    assert_eq!(models.len(), 2);
    assert_eq!(models[0].id, "deepseek-chat");
    assert_eq!(models[1].id, "deepseek-reasoner");
}

#[test]
fn parse_model_list_handles_empty_and_invalid() {
    assert!(parse_model_list("").is_empty());
    assert!(parse_model_list("{}").is_empty());
    assert!(parse_model_list(r#"{"data":[]}"#).is_empty());
}

#[test]
fn suggest_aliases_maps_common_names() {
    let models = vec![
        ModelInfo { id: "deepseek-chat".to_owned() },
        ModelInfo { id: "deepseek-reasoner".to_owned() },
    ];
    let aliases = suggest_aliases(&models, "deepseek-chat");
    assert_eq!(aliases.get("gpt-5-codex").unwrap(), "deepseek-chat");
    assert_eq!(aliases.get("gpt-4o").unwrap(), "deepseek-chat");
    assert_eq!(aliases.get("o1").unwrap(), "deepseek-reasoner");
}

#[test]
fn suggest_aliases_single_model() {
    let models = vec![ModelInfo { id: "mimo-v2.5-pro".to_owned() }];
    let aliases = suggest_aliases(&models, "mimo-v2.5-pro");
    assert_eq!(aliases.get("gpt-5-codex").unwrap(), "mimo-v2.5-pro");
    assert_eq!(aliases.get("o1").unwrap(), "mimo-v2.5-pro");
}

#[test]
fn suggest_aliases_empty_models() {
    let aliases = suggest_aliases(&Vec::new(), "some-model");
    assert!(aliases.is_empty());
}

#[test]
fn aliases_do_not_lead_to_themselves() {
    let models = vec![ModelInfo { id: "gpt-4o".to_owned() }];
    let aliases = suggest_aliases(&models, "gpt-4o");
    assert!(aliases.get("gpt-4o").is_none());
    assert_eq!(aliases.get("gpt-4").unwrap(), "gpt-4o");
}

#[test]
fn is_reasoning_model_detects_variants() {
    assert!(is_reasoning_model("deepseek-reasoner"));
    assert!(is_reasoning_model("deepseek-r1"));
    assert!(is_reasoning_model("qwen-thinking"));
    assert!(!is_reasoning_model("deepseek-chat"));
    assert!(!is_reasoning_model("gpt-4o"));
    assert!(is_reasoning_model("DeepSeek-R1"));
}

#[test]
fn reasoning_in_an_answer_is_recognized() {
    let mut caps = none();
    check_reasoning_support(r#"{"choices":[{"message":{"content":"x"}}]}"#, &mut caps);
    assert!(!caps.supports_reasoning_content);
    check_reasoning_support(
        r#"{"choices":[{"message":{"content":"x","reasoning_content":"because"}}]}"#,
        &mut caps,
    );
    assert!(caps.supports_reasoning_content);
}

#[test]
fn report_lines_say_yes_or_no() {
    assert_eq!(fmt_bool(true), "yes");
    assert_eq!(fmt_bool(false), "no");
    let report = ProbeReport {
        named_tool_choice: true,
        tool_choice_required: false,
        reasoning_content: false,
        reasoning_effort: false,
        image_input: true,
    };
    let lines = report.lines();
    assert_eq!(lines.len(), 7);
    assert!(lines[2].contains("named tool_choice") && lines[2].ends_with("yes"));
    assert!(lines[3].ends_with("no"));
}

#[test]
fn a_failed_probe_is_conservative() {
    let (mut probe, action) = Probe::start(&settings());
    match action {
        ProbeAction::SendFirst { tool_choice, reasoning } => {
            let body = to_serde(&tool_choice.expect("tool choice"));
            assert_eq!(body["tool_choice"]["function"]["name"], "_probe");
            assert_eq!(body["model"], "m");
            assert_eq!(to_serde(&reasoning.expect("reasoning"))["max_tokens"], 16);
        }
        other => panic!("{other:?}"),
    }
    let next = probe.on_first(Some(ProbeReply::Failed), Some(ProbeReply::Failed));
    assert!(matches!(next, ProbeAction::SendEffort(_)));
    let caps = probe.on_effort(&ProbeReply::Failed);
    assert_eq!(caps, Capabilities { supports_image_input: true, ..none() });
}

#[test]
fn an_accepted_tool_choice_is_fully_supported() {
    let (mut probe, _) = Probe::start(&settings());
    let next = probe.on_first(
        Some(answered(200, r#"{"choices":[{"message":{"reasoning":"x"}}]}"#)),
        Some(answered(500, "")),
    );
    match next {
        ProbeAction::SendEffort(body) => {
            assert_eq!(to_serde(&body)["reasoning_effort"], "low");
        }
        other => panic!("{other:?}"),
    }
    let caps = probe.on_effort(&answered(200, ""));
    assert!(caps.supports_named_tool_choice);
    assert!(caps.supports_tool_choice_required);
    assert!(caps.supports_reasoning_content);
    assert!(caps.supports_reasoning_effort);
}

#[test]
fn a_refused_tool_choice_is_asked_for_again() {
    let (mut probe, _) = Probe::start(&settings());
    let next = probe.on_first(
        Some(answered(400, "Tool_Choice is not supported")),
        Some(answered(200, r#"{"choices":[{"message":{"thinking":["x"]}}]}"#)),
    );
    match next {
        ProbeAction::SendRequired(body) => {
            assert_eq!(to_serde(&body)["tool_choice"], "required");
        }
        other => panic!("{other:?}"),
    }
    assert!(matches!(probe.on_required(answered(200, "")), ProbeAction::SendEffort(_)));
    let caps = probe.on_effort(&answered(404, ""));
    assert!(!caps.supports_named_tool_choice);
    assert!(caps.supports_tool_choice_required);
    assert!(caps.supports_reasoning_content);
    assert!(!caps.supports_reasoning_effort);
}

#[test]
fn configured_capabilities_are_not_probed() {
    let mut known = settings();
    known.upstream_supports_named_tool_choice = Some(true);
    known.upstream_supports_tool_choice_required = Some(false);
    known.upstream_supports_reasoning_content = Some(true);
    let (_, action) = Probe::start(&known);
    match action {
        ProbeAction::Done(caps) => {
            assert!(caps.supports_named_tool_choice);
            assert!(!caps.supports_tool_choice_required);
            assert!(caps.supports_reasoning_content);
        }
        other => panic!("{other:?}"),
    }
    let (_, action) = Probe::start(&with_open_capabilities(known));
    assert!(matches!(action, ProbeAction::SendFirst { .. }));
    assert_eq!(models_url(&settings()), "http://127.0.0.1:1/models");
}

#[test]
fn only_an_accepted_list_names_models() {
    let body = r#"{"data":[{"id":"deepseek-chat"}]}"#;
    let models = models_of_reply(&answered(200, body));
    assert_eq!(models, vec![ModelInfo { id: "deepseek-chat".to_owned() }]);
    assert!(models_of_reply(&answered(404, body)).is_empty());
    assert!(models_of_reply(&answered(200, "no list")).is_empty());
    assert!(models_of_reply(&ProbeReply::Failed).is_empty());
}

fn replies(tool_choice: ProbeReply, required: ProbeReply) -> ProbeReplies {
    ProbeReplies {
        tool_choice,
        reasoning: answered(200, r#"{"choices":[{"message":{"reasoning_content":"2"}}]}"#),
        required,
        effort: answered(200, "{}"),
    }
}

#[test]
fn whole_probes_can_be_run_on_known_replies() {
    let nothing = Capabilities { supports_image_input: true, ..none() };
    let refusal = || answered(400, "tool_choice is not supported");
    let caps = run_probe(&settings(), replies(answered(200, "{}"), ProbeReply::Failed));
    assert!(caps.supports_named_tool_choice && caps.supports_tool_choice_required);
    assert!(caps.supports_reasoning_content && caps.supports_reasoning_effort);

    let caps = run_probe(&settings(), replies(refusal(), answered(200, "{}")));
    assert!(!caps.supports_named_tool_choice && caps.supports_tool_choice_required);
    let caps = run_probe(&settings(), replies(refusal(), answered(400, "no")));
    assert!(!caps.supports_named_tool_choice && !caps.supports_tool_choice_required);

    let mut configured = settings();
    configured.upstream_supports_named_tool_choice = Some(false);
    configured.upstream_supports_tool_choice_required = Some(false);
    let caps = run_probe(&configured, replies(answered(200, "{}"), ProbeReply::Failed));
    assert!(!caps.supports_named_tool_choice && caps.supports_reasoning_content);
    configured.upstream_supports_reasoning_content = Some(false);
    assert_eq!(run_probe(&configured, replies(answered(200, "{}"), ProbeReply::Failed)), nothing);

    let failed = ProbeReplies {
        tool_choice: ProbeReply::Failed,
        reasoning: ProbeReply::Failed,
        required: ProbeReply::Failed,
        effort: ProbeReply::Failed,
    };
    assert_eq!(run_probe(&settings(), failed), nothing);
}
