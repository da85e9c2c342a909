use cc2rep::codec::{parse, to_serde};
use cc2rep::json::{JsonValue, Object};
use cc2rep::protocol::analyze_protocol;

fn members(text: &str) -> Object {
    match parse(text).unwrap() {
        JsonValue::Object(o) => o,
        other => panic!("no object: {other:?}"),
    }
}

#[test]
fn analyze_protocol_categorizes_and_sorts_fields() {
    let report = analyze_protocol(&members(
        r#"{"zzz":1,"input":"hi","store":true,"parallel_tool_calls":true,"reasoning":{},
            "background":true,"model":"m"}"#,
    ));
    assert_eq!(report.supported_fields, vec!["input", "model"]);
    assert_eq!(report.emulated_fields, vec!["parallel_tool_calls", "reasoning", "store"]);
    assert_eq!(report.unsupported_fields, vec!["background", "zzz"]);
    assert!(report.has_compatibility_notes());
}

#[test]
fn strict_error_and_metadata_fragment_reflect_report_contents() {
    let report = analyze_protocol(&members(r#"{"input":"hi","prompt":"ignored","unknown":true}"#));

    let error = report.strict_error().expect("strict error");
    assert!(error.contains("prompt"));
    assert!(error.contains("unknown"));

    let fragment = to_serde(&report.metadata_fragment());
    assert_eq!(fragment["compatibility"]["mode"], "chat_completions_bridge");
    assert_eq!(fragment["compatibility"]["supported_fields"][0], "input");
    let unsupported = fragment["compatibility"]["unsupported_fields"].as_array().unwrap();
    assert!(unsupported.iter().any(|v| v.as_str() == Some("prompt")));
    assert!(unsupported.iter().any(|v| v.as_str() == Some("unknown")));
}

#[test]
fn strict_error_is_none_without_blocked_fields() {
    let report = analyze_protocol(&members(r#"{"input":"hi","model":"m","store":true}"#));
    assert_eq!(report.strict_error(), None);
}
