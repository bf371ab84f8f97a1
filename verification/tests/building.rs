//! The outgoing side: prompt validation, URL construction, and the exact
//! JSON body that is serialized for the wire.

use chatquery::error::QueryError;
use chatquery::input::validate_prompt;
use chatquery::request::{build_request, endpoint_url, request_body};

#[test]
fn url_is_plain_concatenation() {
    assert_eq!(
        endpoint_url("https://api.example.com/v1"),
        "https://api.example.com/v1/chat/completions"
    );
}

#[test]
fn url_trailing_slash_is_not_normalized() {
    assert_eq!(
        endpoint_url("https://api.example.com/v1/"),
        "https://api.example.com/v1//chat/completions"
    );
}

#[test]
fn prompt_is_trimmed_on_both_ends() {
    let t = validate_prompt("  hello world \r\n").unwrap();
    assert_eq!(t, "hello world");
}

#[test]
fn inner_whitespace_is_kept() {
    let t = validate_prompt("\ta  b\nc ").unwrap();
    assert_eq!(t, "a  b\nc");
}

#[test]
fn empty_input_is_rejected() {
    let err = validate_prompt("").unwrap_err();
    assert_eq!(err.message(), "Error: No input provided on stdin");
}

#[test]
fn whitespace_only_input_is_rejected() {
    assert!(validate_prompt(" \t\r\n ").is_err());
}

#[test]
fn unicode_whitespace_only_input_is_rejected() {
    assert!(validate_prompt("\u{a0}\u{2003}\u{3000}").is_err());
}

#[test]
fn unicode_whitespace_is_trimmed() {
    let t = validate_prompt("\u{a0}hi\u{2028}").unwrap();
    assert_eq!(t, "hi");
}

#[test]
fn request_holds_one_user_message() {
    let req = build_request("test-model", "hello");
    assert_eq!(req.model, "test-model");
    assert_eq!(req.messages.len(), 1);
    assert_eq!(req.messages[0].role, "user");
    assert_eq!(req.messages[0].content, "hello");
}

#[test]
fn body_has_the_exact_wire_shape() {
    let req = build_request("test-model", "hello");
    assert_eq!(
        request_body(&req),
        "{\"model\":\"test-model\",\"messages\":[{\"role\":\"user\",\"content\":\"hello\"}]}"
    );
}

#[test]
fn body_escapes_quotes_and_backslashes() {
    let req = build_request("m", "say \"hi\\bye\"");
    assert_eq!(
        request_body(&req),
        "{\"model\":\"m\",\"messages\":[{\"role\":\"user\",\"content\":\"say \\\"hi\\\\bye\\\"\"}]}"
    );
}

#[test]
fn body_escapes_control_characters() {
    let req = build_request("m", "a\nb\tc\u{1f}d");
    assert_eq!(
        request_body(&req),
        "{\"model\":\"m\",\"messages\":[{\"role\":\"user\",\"content\":\"a\\nb\\tc\\u001fd\"}]}"
    );
}

#[test]
fn body_passes_unicode_through_unescaped() {
    let req = build_request("m", "caf\u{e9} \u{1F600}");
    assert_eq!(
        request_body(&req),
        "{\"model\":\"m\",\"messages\":[{\"role\":\"user\",\"content\":\"caf\u{e9} \u{1F600}\"}]}"
    );
}

#[test]
fn model_is_escaped_too() {
    let req = build_request("odd\"model", "p");
    assert_eq!(
        request_body(&req),
        "{\"model\":\"odd\\\"model\",\"messages\":[{\"role\":\"user\",\"content\":\"p\"}]}"
    );
}

#[test]
fn trimmed_prompt_round_trips_into_the_body() {
    let prompt = validate_prompt("  what is 2+2? \n").unwrap();
    let req = build_request("test-model", &prompt);
    let body = request_body(&req);
    assert_eq!(
        body,
        "{\"model\":\"test-model\",\"messages\":[{\"role\":\"user\",\"content\":\"what is 2+2?\"}]}"
    );
}

#[test]
fn errors_match_on_their_kind() {
    let err = validate_prompt("   ").unwrap_err();
    assert!(matches!(err, QueryError::EmptyInput));
}
