use cc2rep::codec::{parse, to_serde};
use cc2rep::json::JsonValue;
use cc2rep::translate::{merge_usage, usage_from_upstream};

fn usage_of(text: &str) -> JsonValue {
    usage_from_upstream(Some(&parse(text).unwrap()))
}

#[test]
fn usage_from_upstream_with_cached_tokens() {
    let usage = to_serde(&usage_of(
        r#"{"prompt_tokens":1000,"completion_tokens":200,"total_tokens":1200,
            "prompt_tokens_details":{"cached_tokens":800},
            "completion_tokens_details":{"reasoning_tokens":50}}"#,
    ));
    assert_eq!(usage["input_tokens"], 1000);
    assert_eq!(usage["output_tokens"], 200);
    assert_eq!(usage["total_tokens"], 1200);
    assert_eq!(usage["input_tokens_details"]["cached_tokens"], 800);
    assert_eq!(usage["output_tokens_details"]["reasoning_tokens"], 50);
}

#[test]
fn usage_from_upstream_with_zero_cached_tokens() {
    let usage = to_serde(&usage_of(
        r#"{"prompt_tokens":500,"completion_tokens":100,"prompt_tokens_details":{"cached_tokens":0}}"#,
    ));
    assert_eq!(usage["input_tokens"], 500);
    assert_eq!(usage["input_tokens_details"]["cached_tokens"], 0);
}

#[test]
fn usage_from_upstream_without_prompt_tokens_details() {
    let usage = to_serde(&usage_of(
        r#"{"prompt_tokens":300,"completion_tokens":50,"total_tokens":350}"#,
    ));
    assert_eq!(usage["input_tokens"], 300);
    assert_eq!(usage["input_tokens_details"]["cached_tokens"], 0);
}

#[test]
fn usage_from_upstream_none_returns_empty() {
    let usage = to_serde(&usage_from_upstream(None));
    assert_eq!(usage["input_tokens"], 0);
    assert_eq!(usage["output_tokens"], 0);
    assert_eq!(usage["total_tokens"], 0);
    assert_eq!(usage["input_tokens_details"]["cached_tokens"], 0);
    assert_eq!(usage["output_tokens_details"]["reasoning_tokens"], 0);
}

#[test]
fn usage_from_upstream_fully_cached() {
    let usage = to_serde(&usage_of(
        r#"{"prompt_tokens":1000,"completion_tokens":200,"total_tokens":1200,
            "prompt_tokens_details":{"cached_tokens":1000}}"#,
    ));
    assert_eq!(usage["input_tokens"], 1000);
    assert_eq!(usage["input_tokens_details"]["cached_tokens"], 1000);
}

#[test]
fn usage_from_upstream_total_auto_calculated() {
    let usage = to_serde(&usage_of(r#"{"prompt_tokens":100,"completion_tokens":50}"#));
    assert_eq!(usage["total_tokens"], 150);
}

#[test]
fn merge_usage_accumulates_all_fields() {
    let mut total = usage_of(
        r#"{"prompt_tokens":100,"completion_tokens":50,"total_tokens":150,
            "prompt_tokens_details":{"cached_tokens":80},
            "completion_tokens_details":{"reasoning_tokens":10}}"#,
    );
    let round2 = usage_of(
        r#"{"prompt_tokens":200,"completion_tokens":100,"total_tokens":300,
            "prompt_tokens_details":{"cached_tokens":150},
            "completion_tokens_details":{"reasoning_tokens":30}}"#,
    );
    merge_usage(&mut total, &round2);
    let total = to_serde(&total);
    assert_eq!(total["input_tokens"], 300);
    assert_eq!(total["output_tokens"], 150);
    assert_eq!(total["total_tokens"], 450);
    assert_eq!(total["input_tokens_details"]["cached_tokens"], 230);
    assert_eq!(total["output_tokens_details"]["reasoning_tokens"], 40);
}

#[test]
fn merge_usage_with_zero_round() {
    let mut total = usage_of(r#"{"prompt_tokens":100,"completion_tokens":50}"#);
    let before = to_serde(&total);
    merge_usage(&mut total, &usage_from_upstream(None));
    let total = to_serde(&total);
    assert_eq!(total["input_tokens"], 100);
    assert_eq!(total["output_tokens"], 50);
    assert_eq!(total, before);
}

#[test]
fn usage_ignores_what_is_no_count() {
    let usage = to_serde(&usage_of(r#"{"prompt_tokens":-5,"completion_tokens":"7","total_tokens":1.5}"#));
    assert_eq!(usage["input_tokens"], 0);
    assert_eq!(usage["output_tokens"], 0);
    assert_eq!(usage["total_tokens"], 0);
}
