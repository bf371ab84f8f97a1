//! The HTTP outcome and response side: status interpretation, response
//! parsing, choice selection, and the diagnostics each failure prints.

use chatquery::error::QueryError;
use chatquery::response::{first_choice_content, interpret_response, is_success_status, parse_response};

#[test]
fn test_execute_query_success() {
    let body = "{\"choices\":[{\"message\":{\"role\":\"assistant\",\"content\":\"Hi there!\"}}]}";
    let result = interpret_response(200, body).unwrap();
    assert_eq!(result.choices[0].message.content, "Hi there!");
    assert_eq!(result.choices[0].message.role, "assistant");
}

#[test]
fn test_execute_query_api_error() {
    let body = "{\"error\":\"invalid api key\"}";
    let err = interpret_response(401, body).unwrap_err();
    let msg = err.message();
    assert!(msg.contains("401"), "expected '401' in error: {}", msg);
}

#[test]
fn test_execute_query_empty_choices() {
    let body = "{\"choices\":[]}";
    let result = interpret_response(200, body).unwrap();
    assert!(result.choices.is_empty());
}

#[test]
fn test_execute_query_invalid_json() {
    let result = interpret_response(200, "not json");
    assert!(result.is_err());
}

#[test]
fn api_error_message_is_exact() {
    let err = interpret_response(503, "upstream down").unwrap_err();
    assert_eq!(err.message(), "Error: API returned status 503: upstream down");
}

#[test]
fn api_error_with_five_digit_status() {
    let err = QueryError::ApiStatus {
        status: 65535,
        body: String::from("x"),
    };
    assert_eq!(err.message(), "Error: API returned status 65535: x");
}

#[test]
fn success_range_boundaries() {
    assert!(!is_success_status(199));
    assert!(is_success_status(200));
    assert!(is_success_status(299));
    assert!(!is_success_status(300));
    assert!(!is_success_status(404));
}

#[test]
fn status_300_is_an_error_even_with_good_body() {
    let body = "{\"choices\":[{\"message\":{\"role\":\"assistant\",\"content\":\"hi\"}}]}";
    let err = interpret_response(300, body).unwrap_err();
    assert!(err.message().contains("300"));
}

#[test]
fn no_choices_is_distinct_error() {
    let resp = interpret_response(200, "{\"choices\":[]}").unwrap();
    let err = first_choice_content(&resp).unwrap_err();
    assert_eq!(err.message(), "Error: No choices in response");
}

#[test]
fn first_of_several_choices_wins() {
    let body = "{\"choices\":[{\"message\":{\"role\":\"assistant\",\"content\":\"first\"}},{\"message\":{\"role\":\"assistant\",\"content\":\"second\"}}]}";
    let resp = interpret_response(200, body).unwrap();
    assert_eq!(resp.choices.len(), 2);
    let reply = first_choice_content(&resp).unwrap();
    assert_eq!(reply, "first");
}

#[test]
fn unknown_members_are_skipped() {
    let body = "{\"id\":\"chatcmpl-1\",\"object\":\"chat.completion\",\"created\":1700000000,\"model\":\"m-1\",\"choices\":[{\"index\":0,\"message\":{\"role\":\"assistant\",\"content\":\"ok\",\"refusal\":null},\"finish_reason\":\"stop\",\"logprobs\":null}],\"usage\":{\"prompt_tokens\":1,\"completion_tokens\":2,\"total_cost\":-3.25e-2},\"served\":true}";
    let resp = parse_response(body).unwrap();
    assert_eq!(resp.choices.len(), 1);
    assert_eq!(resp.choices[0].message.content, "ok");
    assert_eq!(resp.choices[0].message.role, "assistant");
}

#[test]
fn whitespace_and_member_order_do_not_matter() {
    let body = " \t\r\n{ \"choices\" : [ { \"message\" : { \"content\" : \"hi\" , \"role\" : \"assistant\" } } ] } \n";
    let resp = parse_response(body).unwrap();
    assert_eq!(resp.choices[0].message.content, "hi");
    assert_eq!(resp.choices[0].message.role, "assistant");
}

#[test]
fn string_escapes_are_decoded() {
    let body = "{\"choices\":[{\"message\":{\"role\":\"assistant\",\"content\":\"a\\\"b\\\\c\\/d\\n\\r\\t\\b\\f\\u0041\\u00e9\"}}]}";
    let resp = parse_response(body).unwrap();
    assert_eq!(
        resp.choices[0].message.content,
        "a\"b\\c/d\n\r\t\u{8}\u{c}A\u{e9}"
    );
}

#[test]
fn surrogate_pair_is_combined() {
    let body = "{\"choices\":[{\"message\":{\"role\":\"assistant\",\"content\":\"\\ud83d\\ude00\"}}]}";
    let resp = parse_response(body).unwrap();
    assert_eq!(resp.choices[0].message.content, "\u{1F600}");
}

#[test]
fn lone_surrogate_is_rejected() {
    let body = "{\"choices\":[{\"message\":{\"role\":\"assistant\",\"content\":\"\\ud83d\"}}]}";
    assert!(parse_response(body).is_none());
}

#[test]
fn unescaped_control_character_is_rejected() {
    let body = "{\"choices\":[{\"message\":{\"role\":\"assistant\",\"content\":\"a\u{1}b\"}}]}";
    assert!(parse_response(body).is_none());
}

#[test]
fn missing_required_member_is_rejected() {
    assert!(parse_response("{\"choices\":[{\"message\":{\"role\":\"assistant\"}}]}").is_none());
    assert!(parse_response("{\"choices\":[{\"message\":{\"content\":\"x\"}}]}").is_none());
    assert!(parse_response("{\"choices\":[{\"index\":0}]}").is_none());
    assert!(parse_response("{\"usage\":{}}").is_none());
    assert!(parse_response("{}").is_none());
}

#[test]
fn duplicate_required_member_is_rejected() {
    let body = "{\"choices\":[],\"choices\":[]}";
    assert!(parse_response(body).is_none());
}

#[test]
fn trailing_text_is_rejected() {
    assert!(parse_response("{\"choices\":[]} extra").is_none());
    assert!(parse_response("{\"choices\":[]},").is_none());
}

#[test]
fn malformed_json_is_rejected() {
    assert!(parse_response("").is_none());
    assert!(parse_response("   ").is_none());
    assert!(parse_response("{\"choices\":[").is_none());
    assert!(parse_response("{\"choices\":[],}").is_none());
    assert!(parse_response("{\"choices\":[{\"message\":{\"role\":\"a\",\"content\":\"b\",}}]}").is_none());
    assert!(parse_response("[\"choices\"]").is_none());
    assert!(parse_response("{\"choices\":01}").is_none());
}

#[test]
fn parse_error_message_is_exact() {
    let err = interpret_response(200, "not json").unwrap_err();
    assert_eq!(err.message(), "Error: Could not parse response body as JSON");
}

#[test]
fn missing_env_var_error_names_the_variable() {
    let err = QueryError::MissingEnvVar {
        name: String::from("MY_API_KEY"),
    };
    assert_eq!(err.message(), "Error: MY_API_KEY environment variable not set");
}

#[test]
fn transport_error_carries_the_cause() {
    let err = QueryError::Transport {
        detail: String::from("connection refused"),
    };
    assert_eq!(err.message(), "Error: request failed: connection refused");
}
