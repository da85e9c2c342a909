use cc2rep::codec::{parse, to_serde};
use cc2rep::metrics::RequestMetrics;

#[test]
fn record_and_snapshot() {
    let mut metrics = RequestMetrics::default();
    metrics.record_request(false);
    metrics.record_request(true);
    metrics.record_request(true);
    metrics.record_completion(
        &parse(
            r#"{"input_tokens":100,"output_tokens":50,
                "input_tokens_details":{"cached_tokens":20},
                "output_tokens_details":{"reasoning_tokens":10}}"#,
        )
        .unwrap(),
    );
    metrics.record_failure();

    let snap = to_serde(&metrics.snapshot(9, 1, 3));
    assert_eq!(snap["requests"]["total"], 3);
    assert_eq!(snap["requests"]["stream"], 2);
    assert_eq!(snap["requests"]["non_stream"], 1);
    assert_eq!(snap["requests"]["completed"], 1);
    assert_eq!(snap["requests"]["failed"], 1);
    assert_eq!(snap["requests"]["cancelled"], 0);
    assert_eq!(snap["requests"]["inflight"], 1);
    assert_eq!(snap["tokens"]["input"], 100);
    assert_eq!(snap["tokens"]["output"], 50);
    assert_eq!(snap["tokens"]["cached"], 20);
    assert_eq!(snap["tokens"]["reasoning"], 10);
    assert_eq!(snap["stored_responses"], 3);
    assert_eq!(snap["uptime_seconds"], 9);
}

#[test]
fn empty_usage_snapshot() {
    let mut metrics = RequestMetrics::default();
    metrics.record_completion(&parse("{}").unwrap());
    let snap = to_serde(&metrics.snapshot(0, 0, 0));
    assert_eq!(snap["tokens"]["input"], 0);
    assert_eq!(snap["tokens"]["output"], 0);
}

#[test]
fn cancellations_are_counted() {
    let mut metrics = RequestMetrics::default();
    metrics.record_cancellation();
    assert_eq!(to_serde(&metrics.snapshot(0, 0, 0))["requests"]["cancelled"], 1);
}
