use http_test::{HttpTestError, TestResponse};
use serde_json::Value;

fn response(status: u16, headers: Vec<(&str, &str)>, body: &str) -> TestResponse {
    TestResponse {
        status,
        headers: headers
            .into_iter()
            .map(|(k, v)| (k.to_string(), v.to_string()))
            .collect(),
        body: body.to_string(),
    }
}

#[test]
fn test_assert_redirect() {
    let response = TestResponse {
        status: 302,
        headers: vec![("location".to_string(), "https://example.com".to_string())],
        body: String::new(),
    };
    response.assert_redirect();
    assert!(response.check_redirect().is_ok());
}

#[test]
fn test_error_display() {
    let err = HttpTestError::RequestFailed("timeout".to_string());
    assert_eq!(err.to_string(), "request failed: timeout");

    let err = HttpTestError::ConnectionError("refused".to_string());
    assert_eq!(err.to_string(), "connection error: refused");

    let err = HttpTestError::JsonPathError("invalid".to_string());
    assert_eq!(err.to_string(), "JSON path error: invalid");

    let err = HttpTestError::AssertionFailed {
        expected: "200".to_string(),
        actual: "404".to_string(),
        context: "status".to_string(),
    };
    assert_eq!(
        err.to_string(),
        "assertion failed (status): expected 200, got 404"
    );
}

#[test]
fn test_assert_status_fails() {
    let response = TestResponse {
        status: 200,
        headers: vec![],
        body: String::new(),
    };
    let message = response.check_status(201).unwrap_err();
    assert!(message.contains("expected status 201"));
    assert_eq!(message, "expected status 201, got 200");
}

#[test]
fn test_assert_ok_fails() {
    let response = TestResponse {
        status: 404,
        headers: vec![],
        body: String::new(),
    };
    let message = response.check_ok().unwrap_err();
    assert!(message.contains("expected 2xx status"));
    assert_eq!(message, "expected 2xx status, got 404");
}

#[test]
fn test_get_assert_status() {
    let response = response(200, vec![], "hello");
    let back = response.assert_status(200);
    assert_eq!(back.body, "hello");
    assert!(response.check_status(200).is_ok());
}

#[test]
fn test_assert_ok() {
    let response = response(200, vec![], "ok");
    response.assert_ok();
    assert!(response.check_ok().is_ok());
}

#[test]
fn test_assert_client_error() {
    let response = response(404, vec![], "not found");
    response.assert_client_error();
    assert!(response.check_client_error().is_ok());
}

#[test]
fn test_assert_server_error() {
    let response = response(500, vec![], "error");
    response.assert_server_error();
    assert!(response.check_server_error().is_ok());
}

#[test]
fn test_assert_header() {
    let response = response(200, vec![("X-Custom", "test-value")], "ok");
    response
        .assert_status(200)
        .assert_header("X-Custom", "test-value");
    assert!(response.check_header("X-Custom", "test-value").is_ok());
}

#[test]
fn test_assert_header_exists() {
    let response = response(200, vec![("X-Request-Id", "abc123")], "ok");
    response.assert_header_exists("X-Request-Id");
    assert!(response.check_header_exists("X-Request-Id").is_ok());
}

#[test]
fn test_assert_body_contains() {
    let response = response(200, vec![], "hello world");
    response.assert_body_contains("world");
    assert!(response.check_body_contains("world").is_ok());
}

#[test]
fn test_assert_body_equals() {
    let response = response(200, vec![], "exact match");
    response.assert_body_equals("exact match");
    assert!(response.check_body_equals("exact match").is_ok());
}

#[test]
fn test_assert_json_path_nested() {
    let body = r#"{"data":{"users":[{"name":"Alice"},{"name":"Bob"}]}}"#;
    let response = response(200, vec![("Content-Type", "application/json")], body);
    let alice = Value::from("Alice");
    let bob = Value::from("Bob");
    assert!(response.check_json_path("data.users[0].name", &alice).is_ok());
    assert!(response.check_json_path("data.users[1].name", &bob).is_ok());
    response
        .assert_json_path("data.users[0].name", &alice)
        .assert_json_path("data.users[1].name", &bob);
}

#[test]
fn test_assert_json_path_simple() {
    let body = r#"{"count":42,"active":true}"#;
    let response = response(200, vec![], body);
    assert!(response.check_json_path("count", &Value::from(42)).is_ok());
    assert!(response.check_json_path("active", &Value::from(true)).is_ok());
}

#[test]
fn test_chained_assertions() {
    let body = r#"{"status":"ok","count":5}"#;
    let response = response(200, vec![("X-Api", "v1")], body);
    let passed = response
        .check_ok()
        .and_then(|r| r.check_status(200))
        .and_then(|r| r.check_header("X-Api", "v1"))
        .and_then(|r| r.check_body_contains("ok"))
        .and_then(|r| r.check_json_path("count", &Value::from(5)));
    assert!(passed.is_ok());
}

#[test]
fn test_json_parsing() {
    let response = response(200, vec![], r#"{"key":"value"}"#);
    let json = response.json().unwrap();
    assert_eq!(json["key"], "value");
}

#[test]
fn status_classes() {
    let ok = response(204, vec![], "");
    assert!(ok.check_ok().is_ok());
    assert_eq!(ok.check_redirect().unwrap_err(), "expected 3xx status, got 204");
    assert_eq!(ok.check_client_error().unwrap_err(), "expected 4xx status, got 204");
    assert_eq!(ok.check_server_error().unwrap_err(), "expected 5xx status, got 204");

    let missing = response(404, vec![], "not found");
    assert!(missing.check_client_error().is_ok());
    assert!(missing.check_ok().is_err());

    let broken = response(500, vec![], "error");
    assert!(broken.check_server_error().is_ok());
    assert!(broken.check_client_error().is_err());
}

#[test]
fn status_class_edges() {
    assert!(response(199, vec![], "").check_ok().is_err());
    assert!(response(200, vec![], "").check_ok().is_ok());
    assert!(response(299, vec![], "").check_ok().is_ok());
    assert!(response(300, vec![], "").check_ok().is_err());
    assert!(response(300, vec![], "").check_redirect().is_ok());
    assert!(response(399, vec![], "").check_redirect().is_ok());
    assert!(response(400, vec![], "").check_redirect().is_err());
    assert!(response(599, vec![], "").check_server_error().is_ok());
    assert_eq!(
        response(600, vec![], "").check_server_error().unwrap_err(),
        "expected 5xx status, got 600"
    );
}

#[test]
fn header_check_ignores_case_of_the_name() {
    let r = response(200, vec![("X-Custom", "test-value")], "ok");
    assert!(r.check_header("X-Custom", "test-value").is_ok());
    assert!(r.check_header("x-custom", "test-value").is_ok());
    assert!(r.check_header("X-CUSTOM", "test-value").is_ok());
    assert!(r.check_header_exists("x-custom").is_ok());
    assert_eq!(r.find_header("x-CUSTOM"), Some(0));
}

#[test]
fn header_check_compares_the_value_exactly() {
    let r = response(200, vec![("X-Custom", "test-value")], "ok");
    assert_eq!(
        r.check_header("X-Custom", "Test-Value").unwrap_err(),
        "header 'X-Custom': expected 'Test-Value', got 'test-value'"
    );
}

#[test]
fn header_check_uses_the_first_matching_header() {
    let r = response(
        200,
        vec![("Set-Cookie", "a"), ("set-cookie", "b")],
        "",
    );
    assert_eq!(r.find_header("SET-COOKIE"), Some(0));
    assert!(r.check_header("SET-COOKIE", "a").is_ok());
    assert_eq!(
        r.check_header("SET-COOKIE", "b").unwrap_err(),
        "header 'SET-COOKIE': expected 'b', got 'a'"
    );
}

#[test]
fn missing_header_is_reported() {
    let r = response(200, vec![("X-Request-Id", "abc123")], "");
    assert!(r.check_header_exists("X-Request-Id").is_ok());
    assert_eq!(
        r.check_header_exists("X-Other").unwrap_err(),
        "expected header 'X-Other' to exist"
    );
    assert_eq!(
        r.check_header("X-Other", "v").unwrap_err(),
        "header 'X-Other' not found in response"
    );
    assert_eq!(r.find_header("X-Other"), None);
}

#[test]
fn body_contains_and_equals() {
    let r = response(200, vec![], "hello world");
    assert!(r.check_body_contains("world").is_ok());
    assert!(r.check_body_contains("hello world").is_ok());
    assert!(r.check_body_contains("").is_ok());
    assert!(r.check_body_contains("worlds").is_err());
    assert!(r.check_body_equals("hello world").is_ok());
    assert!(r.check_body_equals("hello").is_err());
}

#[test]
fn body_failures_show_the_body() {
    let r = response(200, vec![], "exact match");
    assert_eq!(
        r.check_body_equals("other").unwrap_err(),
        "expected body to equal 'other', got: exact match"
    );
    assert_eq!(
        r.check_body_contains("zzz").unwrap_err(),
        "expected body to contain 'zzz', body was: exact match"
    );
}

#[test]
fn long_body_is_cut_for_display() {
    let body = "a".repeat(250);
    let r = response(200, vec![], &body);
    assert_eq!(
        r.check_body_contains("b").unwrap_err(),
        format!("expected body to contain 'b', body was: {}", "a".repeat(200))
    );
}

#[test]
fn body_of_exactly_the_display_limit_is_shown_whole() {
    let body = format!("{}é", "a".repeat(198));
    let r = response(200, vec![], &body);
    assert_eq!(
        r.check_body_equals("x").unwrap_err(),
        format!("expected body to equal 'x', got: {}", body)
    );
}

#[test]
fn json_path_failures_are_described() {
    let r = response(200, vec![], r#"{"a":{"b":[1,2]},"c":"x"}"#);
    assert_eq!(
        r.check_json_path("a.missing", &Value::from(1)).unwrap_err(),
        "JSON path 'a.missing' not found in response body"
    );
    assert_eq!(
        r.check_json_path("a.b[1]", &Value::from(3)).unwrap_err(),
        "JSON path 'a.b[1]': expected 3, got 2"
    );
    assert_eq!(
        r.check_json_path("c", &Value::from("y")).unwrap_err(),
        "JSON path 'c': expected \"y\", got \"x\""
    );
    assert_eq!(
        r.check_json_path("a", &Value::from(1)).unwrap_err(),
        "JSON path 'a': expected 1, got {\"b\":[1,2]}"
    );
    assert!(r.check_json_path("a.b[5]", &Value::from(1)).is_err());
}

#[test]
fn json_path_mismatch_shows_the_parsed_value() {
    let body = r#"{"x":-5.001964645085646e-08}"#;
    let r = response(200, vec![], body);
    let parsed: Value = serde_json::from_str(body).unwrap();
    assert_eq!(
        r.check_json_path("x", &Value::from(1)).unwrap_err(),
        format!("JSON path 'x': expected 1, got {}", parsed["x"])
    );
}

#[test]
fn json_path_on_a_body_that_is_not_json() {
    let r = response(200, vec![], "not json");
    let message = r.check_json_path("a", &Value::Null).unwrap_err();
    assert!(message.starts_with("failed to parse response body as JSON: "));
    assert!(message.len() > "failed to parse response body as JSON: ".len());
}

#[test]
fn json_path_compares_whole_values() {
    let r = response(200, vec![], r#"{"a":{"x":1,"y":[true,null]},"z":-0.0,"n":1.0}"#);
    let expected: Value = serde_json::from_str(r#"{"y":[true,null],"x":1}"#).unwrap();
    assert!(r.check_json_path("a", &expected).is_ok());
    assert!(r.check_json_path("z", &Value::from(0.0)).is_ok());
    assert!(r.check_json_path("n", &Value::from(1.0)).is_ok());
    assert!(r.check_json_path("n", &Value::from(1)).is_err());
    assert!(r.check_json_path("", &r.json().unwrap()).is_ok());
}

#[test]
fn body_parses_as_json() {
    let r = response(200, vec![], r#"{"key":"value"}"#);
    let json = r.json().unwrap();
    assert_eq!(json["key"], "value");
}

#[test]
fn body_that_is_not_json_is_reported() {
    let r = response(200, vec![], "not json");
    match r.json() {
        Err(HttpTestError::JsonPathError(m)) => {
            assert!(m.starts_with("failed to parse JSON: "));
            assert!(m.len() > "failed to parse JSON: ".len());
        }
        other => panic!("unexpected: {:?}", other.map(|v| v.to_string())),
    }
}

#[test]
fn truncation_for_display() {
    assert_eq!(http_test::truncate_for_display("hello", 10), "hello");
    assert_eq!(http_test::truncate_for_display("hello", 5), "hello");
    assert_eq!(http_test::truncate_for_display("hello", 3), "hel");
    assert_eq!(http_test::truncate_for_display("héllo", 3), "hé");
}

#[test]
fn json_parse_error_is_rendered() {
    let err = HttpTestError::json_parse_failure("expected value at line 1 column 1");
    assert_eq!(
        err.to_string(),
        "JSON path error: failed to parse JSON: expected value at line 1 column 1"
    );
}

#[test]
fn decimal_rendering() {
    assert_eq!(http_test::text::decimal_text(0), "0");
    assert_eq!(http_test::text::decimal_text(7), "7");
    assert_eq!(http_test::text::decimal_text(404), "404");
    assert_eq!(http_test::text::decimal_text(65535), "65535");
    assert_eq!(http_test::text::decimal_text(u64::MAX), "18446744073709551615");
}

#[test]
fn substring_search() {
    assert!(http_test::text::contains_text("hello world", "o w"));
    assert!(!http_test::text::contains_text("hello", "hello!"));
    assert!(http_test::text::contains_text("", ""));
    assert!(http_test::text::contains_text("grüße", "üß"));
}
