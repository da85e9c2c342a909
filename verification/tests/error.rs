use cc2rep::codec::to_serde;
use cc2rep::error::{ProxyError, Severity};

#[test]
fn upstream_body_prefers_nested_error_message() {
    let error = ProxyError::from_upstream_body(
        400,
        r#"{"error":{"message":"bad upstream token"}}"#.to_owned(),
    );
    assert_eq!(error.status_code(), 400);
    let body = to_serde(&error.body());
    assert_eq!(
        body["error"]["message"],
        "upstream returned 400 Bad Request: bad upstream token"
    );
    assert_eq!(body["error"]["type"], "upstream_error");
    assert_eq!(body["error"]["code"], "upstream_error");
}

#[test]
fn upstream_body_falls_back_to_top_level_message_and_plain_text() {
    let top = ProxyError::from_upstream_body(502, r#"{"message":"gateway broke"}"#.to_owned());
    assert_eq!(top.status_code(), 502);
    assert_eq!(
        to_serde(&top.body())["error"]["message"],
        "upstream returned 502 Bad Gateway: gateway broke"
    );

    let text = ProxyError::from_upstream_body(502, "oops".to_owned());
    assert_eq!(
        to_serde(&text.body())["error"]["message"],
        "upstream returned 502 Bad Gateway: oops"
    );

    let empty = ProxyError::from_upstream_body(502, "   ".to_owned());
    assert_eq!(
        to_serde(&empty.body())["error"]["message"],
        "upstream returned 502 Bad Gateway: upstream returned HTTP 502 Bad Gateway"
    );
}

#[test]
fn error_variants_map_to_expected_status_type_and_code() {
    let cases = [
        (ProxyError::bad_request("bad"), 400, "invalid_request_error", "bad_request"),
        (ProxyError::Unauthorized, 401, "authentication_error", "invalid_api_key"),
        (ProxyError::invalid_config("bad config"), 500, "server_error", "invalid_config"),
        (
            ProxyError::Transport("transport".to_owned()),
            502,
            "api_connection_error",
            "upstream_transport_error",
        ),
        (
            ProxyError::Timeout("timeout".to_owned()),
            504,
            "api_connection_error",
            "upstream_timeout",
        ),
        (ProxyError::Internal("internal".to_owned()), 500, "server_error", "internal_error"),
    ];
    for (error, status, kind, code) in cases {
        assert_eq!(error.status_code(), status);
        let body = to_serde(&error.body());
        assert_eq!(body["error"]["type"], kind);
        assert_eq!(body["error"]["code"], code);
    }
}

#[test]
fn messages_name_what_failed() {
    assert_eq!(ProxyError::Unauthorized.message(), "invalid proxy API key");
    assert_eq!(
        ProxyError::Transport("x".to_owned()).message(),
        "request to upstream failed: x"
    );
    assert_eq!(
        ProxyError::Timeout("x".to_owned()).message(),
        "request to upstream timed out: x"
    );
    assert_eq!(ProxyError::Internal("x".to_owned()).message(), "internal error: x");
    assert_eq!(ProxyError::Internal("x".to_owned()).severity(), Severity::ServerError);
}
