use cc2rep::codec::{parse, to_serde};
use cc2rep::config::Settings;
use cc2rep::error::ProxyError;
use cc2rep::hosted::{
    build_web_section, collect_hosted_tool_types, conclude_web_search, extract_query_text,
    normalize_search_results, plan_hosted_tools, HostedToolContext, SearchHit, WebReply,
};
use cc2rep::json::{object, JsonValue, Object};
use cc2rep::number::JsonNumber;
use cc2rep::search::{
    find_keywords, is_searchable_size, match_content, skips_directory, split_whitespace,
    FileSearch,
};
use cc2rep::table::Table;

fn json(text: &str) -> JsonValue {
    parse(text).expect("json")
}

fn members(text: &str) -> Object {
    match json(text) {
        JsonValue::Object(o) => o,
        other => panic!("no object: {other:?}"),
    }
}

fn settings() -> Settings {
    Settings {
        proxy_host: "127.0.0.1".to_owned(),
        proxy_port: 8080,
        proxy_api_key: "proxy-key".to_owned(),
        upstream_base_url: "http://127.0.0.1".to_owned(),
        upstream_chat_path: "/v1/chat/completions".to_owned(),
        upstream_model: "m".to_owned(),
        upstream_api_key: "k".to_owned(),
        upstream_headers: Table::new(),
        upstream_api_key_header_name: "Authorization".to_owned(),
        upstream_api_key_prefix: "Bearer ".to_owned(),
        request_timeout_seconds: JsonNumber::from_i64(10),
        strict_protocol: false,
        upstream_supports_image_input: false,
        upstream_supports_reasoning_content: None,
        upstream_supports_tool_choice_required: None,
        upstream_supports_named_tool_choice: None,
        response_ttl_seconds: 3600,
        drop_input_reasoning: false,
        drop_tools: false,
        upstream_body: object(),
        model_aliases: Table::new(),
        local_tools: Table::new(),
        max_auto_tool_rounds: 8,
        upstream_max_retries: 0,
        upstream_retry_base_delay_ms: 0,
        upstream_reasoning_effort_field: "reasoning_effort".to_owned(),
        web_search_url: Some("http://search".to_owned()),
        web_search_max_results: 5,
        file_search_paths: vec!["docs".to_owned()],
        file_search_max_results: 2,
    }
}

#[test]
fn collect_hosted_tool_types_finds_hosted_tools() {
    let tools = json(
        r#"[{"type":"function","function":{"name":"test"}},
            {"type":"web_search"},
            {"type":"file_search"},
            {"type":"namespace","tools":[{"type":"computer_use"}]}]"#,
    );
    let types = collect_hosted_tool_types(Some(&tools));
    assert!(types.contains(&"web_search".to_owned()));
    assert!(types.contains(&"file_search".to_owned()));
    assert!(types.contains(&"computer_use".to_owned()));
    assert!(!types.iter().any(|t| t == "function"));
    assert_eq!(types.len(), 3);
    assert!(collect_hosted_tool_types(None).is_empty());
    assert_eq!(
        collect_hosted_tool_types(Some(&json(
            r#"[{"type":"namespace","items":[{"type":"namespace","tools":[{"type":"file_search"}]}]},{}]"#
        ))),
        vec!["file_search".to_owned()]
    );
}

#[test]
fn extract_query_text_from_string() {
    assert_eq!(extract_query_text(Some(&json(r#""hello world""#))), "hello world");
}

#[test]
fn extract_query_text_from_messages() {
    let input = json(
        r#"[{"role":"user","content":"What is Rust?"},
            {"role":"assistant","content":"Rust is a language."},
            {"role":"user","content":"Tell me more"}]"#,
    );
    let query = extract_query_text(Some(&input));
    assert!(query.contains("What is Rust?"));
    assert!(query.contains("Tell me more"));
    assert_eq!(query, "What is Rust? Rust is a language. Tell me more");
}

#[test]
fn extract_query_text_from_content_parts() {
    let input = json(
        r#"[{"role":"user","content":[{"type":"input_text","text":"search for cats"}]}]"#,
    );
    assert_eq!(extract_query_text(Some(&input)), "search for cats");
    assert_eq!(extract_query_text(Some(&json("7"))), "");
    assert_eq!(extract_query_text(None), "");
}

#[test]
fn normalize_search_results_handles_empty() {
    assert!(normalize_search_results(None, 5).is_empty());
    assert!(normalize_search_results(Some(&json("[]")), 5).is_empty());
}

#[test]
fn normalize_search_results_extracts_fields() {
    let results = json(
        r#"[{"title":"Rust","url":"https://rust-lang.org","content":"Systems language"},
            {"title":"","url":"","content":"empty"}]"#,
    );
    let normalized = normalize_search_results(Some(&results), 10);
    assert_eq!(normalized.len(), 1);
    assert_eq!(to_serde(&normalized[0])["title"], "Rust");
    assert_eq!(to_serde(&normalized[0])["snippet"], "Systems language");
}

#[test]
fn results_are_limited() {
    let results = json(r#"[{"title":"a"},{"url":"b","snippet":"s"},{"title":"c"}]"#);
    assert_eq!(normalize_search_results(Some(&results), 2).len(), 2);
    assert_eq!(to_serde(&normalize_search_results(Some(&results), 2)[1])["snippet"], "s");
    assert!(normalize_search_results(Some(&results), 0).is_empty());
}

#[test]
fn a_web_search_is_told_to_the_model_and_the_client() {
    let answer = WebReply::Answer(json(
        r#"{"results":[{"title":"Rust","url":"https://rust-lang.org","content":"Systems"},{"title":"Bare"}]}"#,
    ));
    let section = conclude_web_search("rust", 5, &answer, "ws_1").unwrap();
    let message = to_serde(&section.message.unwrap());
    assert_eq!(message["role"], "system");
    assert_eq!(
        message["content"],
        "Web search results for `rust`:\n1. Rust\n   https://rust-lang.org\n   Systems\n\n2. Bare\n   \n   "
    );
    let item = to_serde(&section.output_item.unwrap());
    assert_eq!(item["id"], "ws_1");
    assert_eq!(item["type"], "web_search_call");
    assert_eq!(item["status"], "completed");
    assert_eq!(item["action"]["query"], "rust");
    assert_eq!(item["annotations"].as_array().unwrap().len(), 1);
    assert_eq!(item["annotations"][0]["url"], "https://rust-lang.org");

    let empty = build_web_section("rust", &Vec::<SearchHit>::new(), "ws_2");
    assert_eq!(
        to_serde(&empty.message.unwrap())["content"],
        "Web search results for `rust`:\nNo results found."
    );
    assert!(to_serde(&empty.output_item.unwrap()).get("annotations").is_none());
}

#[test]
fn a_failed_web_search_is_reported() {
    let refused = conclude_web_search("q", 5, &WebReply::Refused(503), "ws_1").unwrap_err();
    assert_eq!(
        refused,
        ProxyError::Transport("web search returned HTTP 503 Service Unavailable".to_owned())
    );
    let unreachable =
        conclude_web_search("q", 5, &WebReply::Unreachable("down".to_owned()), "ws_1").unwrap_err();
    assert_eq!(
        unreachable,
        ProxyError::Transport("web search request failed: down".to_owned())
    );
    let unreadable =
        conclude_web_search("q", 5, &WebReply::Unreadable("eof".to_owned()), "ws_1").unwrap_err();
    assert_eq!(
        unreadable,
        ProxyError::Transport("web search response parse error: eof".to_owned())
    );

    let mut context = HostedToolContext::default();
    context.add_web_result("q", Err(unreachable));
    assert!(context.output_items.is_empty());
    assert_eq!(
        to_serde(&context.messages[0])["content"],
        "Web search for `q` failed: request to upstream failed: web search request failed: down. Continue without search results."
    );
    let section = conclude_web_search("q", 5, &WebReply::Answer(json("{}")), "ws_1");
    context.add_web_result("q", section);
    assert_eq!(context.output_items.len(), 1);
    assert_eq!(context.messages.len(), 2);
}

#[test]
fn hosted_tools_are_planned_from_request_and_settings() {
    let plan = plan_hosted_tools(
        &members(r#"{"input":"cats","tools":[{"type":"web_search_preview"},{"type":"file_search"}]}"#),
        &settings(),
    );
    assert_eq!(plan.query, "cats");
    assert_eq!(plan.web_search_url.as_deref(), Some("http://search"));
    assert!(plan.search_files);

    let silent = plan_hosted_tools(
        &members(r#"{"input":"","tools":[{"type":"web_search"},{"type":"file_search"}]}"#),
        &settings(),
    );
    assert!(silent.web_search_url.is_none());
    assert!(!silent.search_files);

    let mut bare = settings();
    bare.web_search_url = None;
    bare.file_search_paths.clear();
    let unconfigured = plan_hosted_tools(
        &members(r#"{"input":"cats","tools":[{"type":"web_search"},{"type":"file_search"}]}"#),
        &bare,
    );
    assert!(unconfigured.web_search_url.is_none());
    assert!(!unconfigured.search_files);
}

#[test]
fn search_directory_finds_matching_files() {
    let mut search = FileSearch::start("hello", 10).expect("keywords");
    assert!(search.visit_name("hello.txt", "/tmp/x/hello.txt"));
    assert!(!search.visit_name("other.md", "/tmp/x/other.md"));
    search.visit_content("/tmp/x/other.md", "nothing");
    let section = search.conclude("hello", "fs_1");
    let item = to_serde(&section.output_item.unwrap());
    assert_eq!(item["results"].as_array().unwrap().len(), 1);
    assert!(item["results"][0]["path"].as_str().unwrap().contains("hello.txt"));
}

#[test]
fn match_content_finds_keyword() {
    let result = match_content(
        "The quick brown fox jumps over the lazy dog",
        &vec!["brown".to_owned()],
    );
    assert!(result.is_some());
    assert!(result.unwrap().contains("brown"));
}

#[test]
fn snippets_are_cut_at_characters() {
    let mut text = "ä".repeat(60);
    text.push_str("Needle\n");
    text.push_str(&"ö".repeat(60));
    let snippet = match_content(&text, &vec!["needle".to_owned()]).unwrap();
    let mut expected = "...".to_owned();
    expected.push_str(&"ä".repeat(40));
    expected.push_str("Needle ");
    expected.push_str(&"ö".repeat(40));
    expected.push_str("...");
    assert_eq!(snippet, expected);
    assert_eq!(match_content("abc", &vec!["x".to_owned(), "b".to_owned()]).unwrap(), "...abc...");
    assert!(match_content("abc", &vec!["x".to_owned()]).is_none());
}

#[test]
fn keywords_are_lower_case_words() {
    assert_eq!(split_whitespace("  a\tBc \n d "), vec!["a", "Bc", "d"]);
    assert_eq!(find_keywords("A Rust ä FILE"), vec!["rust", "ä", "file"]);
    assert!(FileSearch::start(" a b ", 5).is_none());
}

#[test]
fn file_searches_stop_when_they_are_full() {
    let mut search = FileSearch::start("note", 1).expect("keywords");
    assert!(!search.is_full());
    assert!(search.visit_name("note.md", "a/note.md"));
    assert!(search.is_full());
    assert!(search.visit_name("NOTE.txt", "a/NOTE.txt"));
    let section = search.conclude("note", "fs_1");
    assert_eq!(
        to_serde(&section.message.unwrap())["content"],
        "File search results for `note`:\n1. a/note.md\n   "
    );

    let empty = FileSearch::start("note", 1).expect("keywords").conclude("note", "fs_2");
    assert_eq!(
        to_serde(&empty.message.unwrap())["content"],
        "File search for `note`:\nNo matching files found."
    );
    assert!(to_serde(&empty.output_item.unwrap()).get("results").is_none());
}

#[test]
fn some_directories_and_files_are_left_out() {
    assert!(skips_directory(".git"));
    assert!(skips_directory("node_modules"));
    assert!(skips_directory("target"));
    assert!(!skips_directory("src"));
    assert!(!skips_directory(""));
    assert!(is_searchable_size(1_000_000));
    assert!(!is_searchable_size(1_000_001));
}
