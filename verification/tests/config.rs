use cc2rep::codec::parse;
use cc2rep::config::{
    default_api_key_header_name, default_api_key_prefix, default_file_search_max_results,
    default_max_auto_tool_rounds, default_proxy_host, default_proxy_port,
    default_request_timeout_seconds, default_response_ttl_seconds,
    default_tool_timeout_seconds, default_true, default_upstream_chat_path,
    default_upstream_max_retries, default_upstream_reasoning_effort_field,
    default_upstream_retry_base_delay_ms, default_web_search_max_results, LocalToolSettings,
    Settings,
};
use cc2rep::error::ProxyError;
use cc2rep::json::{object, JsonValue};
use cc2rep::number::JsonNumber;
use cc2rep::table::Table;

fn number(text: &str) -> JsonNumber {
    match parse(text).unwrap() {
        JsonValue::Num(n) => n,
        other => panic!("no number: {other:?}"),
    }
}

fn table(entries: &[(&str, &str)]) -> Table<String> {
    let mut t: Table<String> = Table::new();
    for (k, v) in entries {
        t.insert(k.to_string(), v.to_string());
    }
    t
}

fn valid_settings() -> Settings {
    Settings {
        proxy_host: "127.0.0.1".to_owned(),
        proxy_port: 8080,
        proxy_api_key: "proxy-key".to_owned(),
        upstream_base_url: "https://api.example.com/".to_owned(),
        upstream_chat_path: "chat/completions".to_owned(),
        upstream_model: "upstream-model".to_owned(),
        upstream_api_key: "upstream-key".to_owned(),
        upstream_headers: table(&[("x-test", "1")]),
        upstream_api_key_header_name: "Authorization".to_owned(),
        upstream_api_key_prefix: "Bearer ".to_owned(),
        request_timeout_seconds: number("30.0"),
        strict_protocol: false,
        upstream_supports_image_input: false,
        upstream_supports_reasoning_content: None,
        upstream_supports_tool_choice_required: None,
        upstream_supports_named_tool_choice: None,
        response_ttl_seconds: 3600,
        drop_input_reasoning: false,
        drop_tools: false,
        upstream_body: object().with("seed", JsonValue::number(1)),
        model_aliases: table(&[("client-model", "aliased-model")]),
        local_tools: Table::new(),
        max_auto_tool_rounds: 8,
        upstream_max_retries: 3,
        upstream_retry_base_delay_ms: 1000,
        upstream_reasoning_effort_field: "reasoning_effort".to_owned(),
        web_search_url: None,
        web_search_max_results: 5,
        file_search_paths: Vec::new(),
        file_search_max_results: 5,
    }
}

fn tool(command: &str, timeout: &str) -> LocalToolSettings {
    LocalToolSettings {
        command: command.to_owned(),
        args: vec![],
        env: Table::new(),
        workdir: None,
        timeout_seconds: number(timeout),
        stdin_json: true,
        output_json: true,
    }
}

#[test]
fn validate_rejects_bad_fields() {
    let mut settings = valid_settings();
    settings.proxy_host.clear();
    assert!(matches!(settings.validate(), Err(ProxyError::InvalidConfig(_))));

    let mut settings = valid_settings();
    settings.proxy_api_key.clear();
    assert!(matches!(settings.validate(), Err(ProxyError::InvalidConfig(_))));

    let mut settings = valid_settings();
    settings.upstream_base_url.clear();
    assert!(matches!(settings.validate(), Err(ProxyError::InvalidConfig(_))));

    let mut settings = valid_settings();
    settings.upstream_model.clear();
    assert!(matches!(settings.validate(), Err(ProxyError::InvalidConfig(_))));

    let mut settings = valid_settings();
    settings.upstream_api_key.clear();
    assert!(matches!(settings.validate(), Err(ProxyError::InvalidConfig(_))));

    let mut settings = valid_settings();
    settings.request_timeout_seconds = number("0.0");
    assert!(matches!(settings.validate(), Err(ProxyError::InvalidConfig(_))));

    let mut settings = valid_settings();
    settings.max_auto_tool_rounds = 0;
    assert!(matches!(settings.validate(), Err(ProxyError::InvalidConfig(_))));

    let mut settings = valid_settings();
    settings.local_tools.insert("lookup".to_owned(), tool("", "10.0"));
    assert!(matches!(settings.validate(), Err(ProxyError::InvalidConfig(_))));
}

#[test]
fn validate_accepts_good_settings() {
    let mut settings = valid_settings();
    settings.local_tools.insert("lookup".to_owned(), tool("true", "0.5"));
    assert!(settings.validate().is_ok());
    settings.local_tools.insert("late".to_owned(), tool("true", "-1"));
    assert!(matches!(settings.validate(), Err(ProxyError::InvalidConfig(_))));
}

#[test]
fn socket_addr_and_url_and_model_alias_work() {
    let settings = valid_settings();
    assert_eq!(settings.listen_address(), "127.0.0.1:8080");
    assert_eq!(settings.upstream_url(), "https://api.example.com/chat/completions");
    assert_eq!(settings.mapped_model(Some("client-model")), "aliased-model");
    assert_eq!(settings.mapped_model(Some("other-model")), "upstream-model");
    assert_eq!(settings.mapped_model(None), "upstream-model");
}

#[test]
fn defaults_are_as_documented() {
    assert_eq!(default_proxy_host(), "127.0.0.1");
    assert_eq!(default_proxy_port(), 8800);
    assert_eq!(default_upstream_chat_path(), "/v1/chat/completions");
    assert_eq!(default_api_key_header_name(), "Authorization");
    assert_eq!(default_api_key_prefix(), "Bearer ");
    assert_eq!(default_request_timeout_seconds(), number("120"));
    assert!(default_tool_timeout_seconds().is_positive());
    assert_eq!(default_max_auto_tool_rounds(), 8);
    assert_eq!(default_upstream_max_retries(), 3);
    assert_eq!(default_upstream_retry_base_delay_ms(), 1000);
    assert_eq!(default_response_ttl_seconds(), 3600);
    assert_eq!(default_upstream_reasoning_effort_field(), "reasoning_effort");
    assert_eq!(default_web_search_max_results(), 5);
    assert_eq!(default_file_search_max_results(), 5);
    assert!(default_true());
}
