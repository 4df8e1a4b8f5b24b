use chat_bridge::dispatch::{
    build_upstream_payload, error_body_for_stream, forwarded_upstream_headers, json_error_body,
    new_response_id, redact_for_logging, sse_error_body, stream_default_for_api,
    stream_flag_for_request, unary_response_body, upstream_error_message,
    upstream_headers_for_logging, upstream_messages_for_logging, IncomingApi, WireApi,
};
use chat_bridge::json::Json;

fn conv(v: &serde_json::Value) -> Json {
    match v {
        serde_json::Value::Null => Json::Null,
        serde_json::Value::Bool(b) => Json::Bool(*b),
        serde_json::Value::Number(n) => match n.as_i64() {
            Some(i) => Json::Int(i),
            None => Json::Num(n.to_string()),
        },
        serde_json::Value::String(s) => Json::Str(s.clone()),
        serde_json::Value::Array(a) => Json::Arr(a.iter().map(conv).collect()),
        serde_json::Value::Object(o) => {
            Json::Obj(o.iter().map(|(k, x)| (k.clone(), conv(x))).collect())
        }
    }
}

fn jv(s: &str) -> Json {
    conv(&serde_json::from_str::<serde_json::Value>(s).expect("test JSON parses"))
}

#[test]
fn stream_defaults_differ_by_schema() {
    assert!(stream_default_for_api(IncomingApi::Responses));
    assert!(!stream_default_for_api(IncomingApi::Chat));
}

#[test]
fn stream_flag_respects_explicit_boolean() {
    let body = jv("{\"model\":\"m\",\"stream\":false}");
    assert!(!stream_flag_for_request(IncomingApi::Responses, &body));
    let body2 = jv("{\"model\":\"m\",\"stream\":true}");
    assert!(stream_flag_for_request(IncomingApi::Chat, &body2));
    let body3 = jv("{\"model\":\"m\",\"stream\":\"yes\"}");
    assert!(stream_flag_for_request(IncomingApi::Responses, &body3));
    assert!(!stream_flag_for_request(IncomingApi::Chat, &body3));
}

#[test]
fn build_upstream_payload_overwrites_stream_flag() {
    let request = jv("{\"model\":\"m\",\"messages\":[],\"stream\":true}");
    let payload = build_upstream_payload(&request, IncomingApi::Chat, WireApi::Chat, false)
        .expect("passthrough");
    assert_eq!(payload.get("stream").and_then(|v| v.as_bool()), Some(false));
}

#[test]
fn build_upstream_payload_transcodes_chat_to_responses() {
    let request = jv(
        "{\"model\":\"m\",\"messages\":[{\"role\":\"user\",\"content\":\"hi\"}],\
          \"stream\":false}",
    );
    let payload = build_upstream_payload(&request, IncomingApi::Chat, WireApi::Responses, true)
        .expect("transcoded");
    assert_eq!(payload.get("stream").and_then(|v| v.as_bool()), Some(true));
    let input = payload.get("input").and_then(|v| v.as_arr()).expect("input");
    assert_eq!(input[0].get_str("type").unwrap().as_str(), "message");
    let parts = input[0].get("content").and_then(|c| c.as_arr()).expect("parts");
    assert_eq!(parts[0].get_str("text").unwrap().as_str(), "hi");
}

#[test]
fn build_upstream_payload_reports_missing_model() {
    let request = jv("{\"messages\":[]}");
    let err = build_upstream_payload(&request, IncomingApi::Chat, WireApi::Responses, false)
        .expect_err("must fail");
    assert!(err.message().contains("missing `model`"));
}

#[test]
fn response_ids_are_fresh_and_prefixed() {
    let a = new_response_id();
    let b = new_response_id();
    assert!(a.starts_with("resp_bridge_"));
    assert!(b.starts_with("resp_bridge_"));
    assert_ne!(a, b);
    assert_eq!(a.chars().count(), "resp_bridge_".len() + 36);
}

#[test]
fn sse_error_body_frames_created_then_failed() {
    let body = sse_error_body("upstream_error", "upstream returned 500 Internal Server Error: boom");
    let created_idx = body.find("event: response.created").expect("created");
    let failed_idx = body.find("event: response.failed").expect("failed");
    assert!(created_idx < failed_idx);
    assert!(body.contains("\"code\":\"upstream_error\""));
    assert!(body.contains("upstream returned 500 Internal Server Error: boom"));
}

#[test]
fn json_error_body_carries_type_and_message() {
    let doc = json_error_body("upstream_error", "boom");
    let err = doc.get("error").expect("error");
    assert_eq!(err.get_str("type").unwrap().as_str(), "upstream_error");
    assert_eq!(err.get_str("message").unwrap().as_str(), "boom");
    assert_eq!(
        doc.to_text(),
        "{\"error\":{\"type\":\"upstream_error\",\"message\":\"boom\"}}"
    );
}

#[test]
fn error_body_matches_requested_framing() {
    let streamed = error_body_for_stream(true, "invalid_request", "bad");
    assert!(streamed.starts_with("event: response.created"));
    let unary = error_body_for_stream(false, "invalid_request", "bad");
    assert!(unary.starts_with("{\"error\":"));
}

#[test]
fn upstream_error_message_includes_status_and_body() {
    let msg = upstream_error_message(500, "Internal Server Error", "boom");
    assert_eq!(msg, "upstream returned 500 Internal Server Error: boom");
}

#[test]
fn unary_chat_upstream_becomes_responses_document() {
    let upstream = jv(
        "{\"choices\":[{\"message\":{\"content\":\"Hi\",\
          \"tool_calls\":[{\"id\":\"call_1\",\"function\":{\"name\":\"f\",\
          \"arguments\":\"{}\"}}]}}],\
          \"usage\":{\"prompt_tokens\":1,\"completion_tokens\":2,\"total_tokens\":3}}",
    );
    let out = unary_response_body(
        IncomingApi::Responses,
        WireApi::Chat,
        upstream,
        "resp_bridge_x".to_string(),
    );
    assert_eq!(out.get_str("id").unwrap().as_str(), "resp_bridge_x");
    assert_eq!(out.get_str("object").unwrap().as_str(), "response");
    assert_eq!(out.get_str("status").unwrap().as_str(), "completed");
    let output = out.get("output").and_then(|v| v.as_arr()).expect("output");
    assert_eq!(output.len(), 2);
    assert_eq!(output[0].get_str("type").unwrap().as_str(), "message");
    assert_eq!(output[1].get_str("type").unwrap().as_str(), "function_call");
    assert_eq!(output[1].get_str("call_id").unwrap().as_str(), "call_1");
    let usage = out.get("usage").expect("usage");
    assert_eq!(usage.get("input_tokens"), Some(&Json::Int(1)));
    assert_eq!(usage.get("output_tokens"), Some(&Json::Int(2)));
    assert_eq!(usage.get("total_tokens"), Some(&Json::Int(3)));
}

#[test]
fn unary_same_schema_passes_body_through() {
    let upstream = jv(
        "{\"choices\":[{\"message\":{\"content\":\"Hi\"}}],\
          \"usage\":{\"prompt_tokens\":1,\"completion_tokens\":2,\"total_tokens\":3}}",
    );
    let expected = jv(
        "{\"choices\":[{\"message\":{\"content\":\"Hi\"}}],\
          \"usage\":{\"prompt_tokens\":1,\"completion_tokens\":2,\"total_tokens\":3}}",
    );
    let out = unary_response_body(
        IncomingApi::Chat,
        WireApi::Chat,
        upstream,
        "resp_bridge_x".to_string(),
    );
    assert_eq!(out, expected);
}

#[test]
fn upstream_messages_for_logging_reads_chat_messages() {
    let payload = jv(
        "{\"model\": \"gpt-4.1\",\"messages\": [{\"role\":\"user\",\"content\":\"hi\"},\
          {\"role\":\"assistant\",\"content\":\"hello\"}]}",
    );
    let out = upstream_messages_for_logging(WireApi::Chat, &payload).expect("messages");
    let messages = out.as_arr().expect("array");
    assert_eq!(messages.len(), 2);
    assert_eq!(messages[0].get_str("role").unwrap().as_str(), "user");
}

#[test]
fn upstream_messages_for_logging_filters_responses_input_items() {
    let payload = jv(
        "{\"model\": \"gpt-4.1\",\"input\": [{\"type\":\"message\",\"role\":\"user\",\
          \"content\":[{\"type\":\"input_text\",\"text\":\"hi\"}]},\
          {\"type\":\"function_call_output\",\"call_id\":\"call_1\",\"output\":\"ok\"}]}",
    );
    let out = upstream_messages_for_logging(WireApi::Responses, &payload).expect("messages");
    let messages = out.as_arr().expect("array");
    assert_eq!(messages.len(), 1);
    assert_eq!(messages[0].get_str("type").unwrap().as_str(), "message");
    assert_eq!(messages[0].get_str("role").unwrap().as_str(), "user");
}

#[test]
fn upstream_headers_for_logging_includes_forwarded_headers() {
    let headers = vec![
        ("openai-organization".to_string(), "org_123".to_string()),
        ("x-openai-subagent".to_string(), "subagent_1".to_string()),
    ];
    let out = upstream_headers_for_logging(&headers, "sk-test");
    assert_eq!(
        out.get_str("authorization").unwrap().as_str(),
        "Bearer <redacted>"
    );
    assert_eq!(
        out.get_str("content-type").unwrap().as_str(),
        "application/json"
    );
    assert_eq!(
        out.get_str("openai-organization").unwrap().as_str(),
        "org_123"
    );
    assert_eq!(
        out.get_str("x-openai-subagent").unwrap().as_str(),
        "subagent_1"
    );
}

#[test]
fn upstream_headers_for_logging_marks_empty_api_key() {
    let headers: Vec<(String, String)> = vec![];
    let out = upstream_headers_for_logging(&headers, "");
    assert_eq!(
        out.get_str("authorization").unwrap().as_str(),
        "Bearer <empty>"
    );
    assert_eq!(
        out.get_str("content-type").unwrap().as_str(),
        "application/json"
    );
}

#[test]
fn redact_for_logging_never_shows_the_key() {
    assert_eq!(redact_for_logging(""), "<empty>");
    assert_eq!(redact_for_logging("sk-secret"), "<redacted>");
}

#[test]
fn forwarded_header_list_is_fixed() {
    let headers = forwarded_upstream_headers();
    assert_eq!(
        headers,
        vec![
            "openai-organization".to_string(),
            "openai-project".to_string(),
            "x-openai-subagent".to_string(),
            "x-codex-turn-state".to_string(),
            "x-codex-turn-metadata".to_string(),
        ]
    );
}

#[test]
fn json_serialization_escapes_strings() {
    let doc = jv("{\"a\":\"line\\nbreak \\\"quoted\\\"\"}");
    assert_eq!(doc.to_text(), "{\"a\":\"line\\nbreak \\\"quoted\\\"\"}");
    assert_eq!(Json::Int(-42).to_text(), "-42");
    assert_eq!(
        jv("[null,true,false,1.5]").to_text(),
        "[null,true,false,1.5]"
    );
}

#[test]
fn sse_error_response_contains_failed_event() {
    let body = sse_error_body("x", "y");
    assert!(body.contains("event: response.failed"));
}
