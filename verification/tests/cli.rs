use cc2rep::cli::{
    alias_lines, discover_config_candidates, model_lines, parse_config_selection,
    prepare_serve_config, rewrite_config, setup_lines, stats_endpoint, stats_lines, update_config,
    CliError,
    ServeConfig,
};
use cc2rep::codec::{parse, to_serde};
use cc2rep::probe::{ModelInfo, ProbeReport};
use cc2rep::table::Table;

fn names(list: &[&str]) -> Vec<String> {
    list.iter().map(|s| s.to_string()).collect()
}

#[test]
fn discover_config_candidates_only_returns_matching_json_files() {
    let files = discover_config_candidates(&names(&[
        "config.z.json",
        "config.a.json",
        "config.json",
        "config.a.toml",
    ]));
    assert_eq!(files, names(&["config.a.json", "config.z.json"]));
}

#[test]
fn prepare_serve_config_returns_explicit_config_without_discovery() {
    let resolved =
        prepare_serve_config(Some("config.example.json".to_owned()), &names(&["config.a.json"]))
            .unwrap();
    assert_eq!(resolved, ServeConfig::Explicit("config.example.json".to_owned()));
}

#[test]
fn prepare_serve_config_returns_sorted_candidates() {
    let resolved = prepare_serve_config(None, &names(&["config.z.json", "config.a.json"])).unwrap();
    assert_eq!(resolved, ServeConfig::Candidates(names(&["config.a.json", "config.z.json"])));
}

#[test]
fn prepare_serve_config_errors_when_no_candidates_exist() {
    let err = prepare_serve_config(None, &names(&[])).unwrap_err();
    assert!(matches!(err, CliError::NotFound(_)));
    assert!(err.message().contains("no config.*.json found"));
}

#[test]
fn parse_config_selection_supports_default_and_valid_indexes() {
    assert_eq!(parse_config_selection("", 3).unwrap(), 0);
    assert_eq!(parse_config_selection("2", 3).unwrap(), 1);
}

#[test]
fn parse_config_selection_rejects_bad_input() {
    assert_eq!(
        parse_config_selection("abc", 3).unwrap_err(),
        "Please enter a number from the list."
    );
    assert_eq!(
        parse_config_selection("4", 3).unwrap_err(),
        "Selection out of range. Try one of the listed numbers."
    );
}

#[test]
fn selections_lie_in_the_list() {
    assert_eq!(parse_config_selection(" +3 \n", 3), Ok(2));
    assert_eq!(parse_config_selection("0", 3), Err("Selection out of range. Try one of the listed numbers."));
    assert_eq!(parse_config_selection("+", 3), Err("Please enter a number from the list."));
    assert_eq!(parse_config_selection("-1", 3), Err("Please enter a number from the list."));
    assert_eq!(
        parse_config_selection("99999999999999999999999", 3),
        Err("Please enter a number from the list.")
    );
    assert_eq!(parse_config_selection("1", 0), Err("Selection out of range. Try one of the listed numbers."));
}

#[test]
fn stats_endpoint_appends_stats_path() {
    assert_eq!(stats_endpoint("http://127.0.0.1:8800").unwrap(), "http://127.0.0.1:8800/stats");
    assert_eq!(stats_endpoint("http://127.0.0.1:8800/").unwrap(), "http://127.0.0.1:8800/stats");
}

#[test]
fn stats_endpoint_accepts_full_endpoint() {
    assert_eq!(
        stats_endpoint("http://127.0.0.1:8800/stats").unwrap(),
        "http://127.0.0.1:8800/stats"
    );
}

#[test]
fn stats_endpoint_rejects_empty_url() {
    let err = stats_endpoint("   ").unwrap_err();
    assert!(matches!(err, CliError::InvalidInput(_)));
}

#[test]
fn stats_endpoint_is_stable() {
    for url in ["http://h", " http://h// ", "http://h /", "/stats", "x/stats/"] {
        let once = stats_endpoint(url).unwrap();
        assert_eq!(stats_endpoint(&once).unwrap(), once);
    }
    assert_eq!(stats_endpoint("///").unwrap_err().message(), "stats URL cannot be empty");
}

#[test]
fn probe_config_update_writes_capability_fields() {
    let raw = r#"{
            "proxy_host": "127.0.0.1",
            "proxy_port": 8800,
            "proxy_api_key": "key",
            "upstream_base_url": "https://api.example.com",
            "upstream_model": "m",
            "upstream_api_key": "k"
        }"#;
    let report = ProbeReport {
        named_tool_choice: true,
        tool_choice_required: false,
        reasoning_content: true,
        reasoning_effort: true,
        image_input: false,
    };
    let mut aliases: Table<String> = Table::new();
    let text = rewrite_config(raw, &report, &aliases).unwrap();
    assert!(text.ends_with("\n}\n"));
    assert!(text.contains("\n  \"proxy_port\": 8800,\n"));
    let updated = to_serde(&parse(&text).unwrap());
    assert_eq!(updated["upstream_supports_named_tool_choice"], true);
    assert_eq!(updated["upstream_supports_tool_choice_required"], false);
    assert_eq!(updated["upstream_supports_reasoning_content"], true);
    assert_eq!(updated["upstream_supports_reasoning_effort"], true);
    assert_eq!(updated["upstream_supports_image_input"], false);
    assert_eq!(updated["proxy_host"], "127.0.0.1");
    assert!(updated.get("model_aliases").is_none());

    aliases.insert("gpt-4o".to_owned(), "m".to_owned());
    let updated = to_serde(&parse(&rewrite_config(raw, &report, &aliases).unwrap()).unwrap());
    assert_eq!(updated["model_aliases"]["gpt-4o"], "m");
    assert_eq!(updated["proxy_port"], 8800);

    let refused = CliError::InvalidInput("config file must be a JSON object".to_owned());
    assert_eq!(rewrite_config("[]", &report, &aliases).unwrap_err(), refused);
    assert_eq!(update_config(parse("[]").unwrap(), &report, &aliases).unwrap_err(), refused);
    assert_eq!(
        rewrite_config("{", &report, &aliases).unwrap_err(),
        CliError::InvalidInput(parse("{").unwrap_err())
    );
}

#[test]
fn statistics_are_printed_line_by_line() {
    let stats = parse(
        r#"{"uptime_seconds":12,"stored_responses":3,
            "requests":{"total":7,"stream":2,"non_stream":5,"completed":4,"failed":1,"cancelled":1,"inflight":1},
            "tokens":{"input":100,"output":50,"cached":20}}"#,
    )
    .unwrap();
    assert_eq!(
        stats_lines(&stats).join("\n"),
        "cc2rep stats (uptime: 12s)\n\nRequests\n  total:      7\n  stream:     2\n  non-stream: 5\n  completed:  4\n  failed:     1\n  cancelled:  1\n  inflight:   1\n\nTokens\n  input:      100\n  output:     50\n  cached:     20\n  reasoning:  0\n\nStored responses: 3"
    );
}

#[test]
fn probe_output_lists_models_and_aliases() {
    let models = vec![ModelInfo { id: "a".to_owned() }, ModelInfo { id: "b".to_owned() }];
    assert_eq!(
        model_lines(&models, "b"),
        names(&["", "Available models (2):", "  a", "  b <-- upstream_model"])
    );
    assert_eq!(
        model_lines(&Vec::new(), "b"),
        names(&["", "Models: (could not retrieve from upstream)"])
    );
    let mut aliases: Table<String> = Table::new();
    assert!(alias_lines(&aliases).is_empty());
    aliases.insert("o1".to_owned(), "a".to_owned());
    assert_eq!(alias_lines(&aliases), names(&["", "Suggested model_aliases:", "  o1 -> a"]));
    assert_eq!(setup_lines("b", &models).len(), 4);
    assert_eq!(
        setup_lines("", &models)[4],
        "  upstream_model             - choose from available models above"
    );
    assert_eq!(setup_lines("", &Vec::new()).len(), 4);
}
