use chat_bridge::dispatch::{apply_request_filters, IncomingApi};
use chat_bridge::json::Json;
use chat_bridge::content::{flatten_content_items, function_output_to_text};
use chat_bridge::to_chat::map_responses_to_chat_request;
use chat_bridge::to_responses::map_chat_to_responses_request;
use chat_bridge::tools::{normalize_chat_tools, normalize_responses_tool_choice, normalize_tool_choice};

fn conv(v: &serde_json::Value) -> Json {
    match v {
        serde_json::Value::Null => Json::Null,
        serde_json::Value::Bool(b) => Json::Bool(*b),
        serde_json::Value::Number(n) => match n.as_i64() {
            Some(i) => Json::Int(i),
            None => Json::Num(n.to_string()),
        },
        serde_json::Value::String(s) => Json::Str(s.clone()),
        serde_json::Value::Array(a) => Json::Arr(a.iter().map(conv).collect()),
        serde_json::Value::Object(o) => {
            Json::Obj(o.iter().map(|(k, x)| (k.clone(), conv(x))).collect())
        }
    }
}

fn jv(s: &str) -> Json {
    conv(&serde_json::from_str::<serde_json::Value>(s).expect("test JSON parses"))
}

/// Structural equality with object fields taken as unordered.
fn json_eq(a: &Json, b: &Json) -> bool {
    match (a, b) {
        (Json::Obj(ea), Json::Obj(eb)) => {
            let mut ka: Vec<&(String, Json)> = ea.iter().collect();
            let mut kb: Vec<&(String, Json)> = eb.iter().collect();
            ka.sort_by(|x, y| x.0.cmp(&y.0));
            kb.sort_by(|x, y| x.0.cmp(&y.0));
            ka.len() == kb.len()
                && ka
                    .iter()
                    .zip(kb.iter())
                    .all(|(x, y)| x.0 == y.0 && json_eq(&x.1, &y.1))
        }
        (Json::Arr(xa), Json::Arr(xb)) => {
            xa.len() == xb.len() && xa.iter().zip(xb.iter()).all(|(x, y)| json_eq(x, y))
        }
        _ => a == b,
    }
}

#[test]
fn maps_responses_request_to_chat_request_with_function_tool() {
    let input = jv(
        "{\"model\":\"gpt-4.1\",\"instructions\":\"You are helpful\",\
         \"input\":[{\"type\":\"message\",\"role\":\"user\",\
         \"content\":[{\"type\":\"input_text\",\"text\":\"hello\"}]}],\
         \"tools\":[{\"type\":\"function\",\"name\":\"get_weather\",\
         \"description\":\"Get weather\",\"parameters\":{\"type\":\"object\",\
         \"properties\":{\"city\":{\"type\":\"string\"}}}}],\
         \"tool_choice\":\"auto\",\"parallel_tool_calls\":true}",
    );
    let req = map_responses_to_chat_request(&input, &vec![]).expect("should map");
    let messages = req
        .chat_request
        .get("messages")
        .and_then(|m| m.as_arr())
        .expect("messages array");
    assert_eq!(messages.len(), 2);

    let tools = req
        .chat_request
        .get("tools")
        .and_then(|t| t.as_arr())
        .expect("tools array");
    assert_eq!(
        tools[0].get("function").and_then(|f| f.as_obj()).is_some(),
        true
    );
}

#[test]
fn normalize_tool_choice_wraps_function_name() {
    let choice = jv("{\"type\":\"function\", \"name\":\"f\"}");
    let normalized = normalize_tool_choice(choice);
    assert!(json_eq(
        &normalized,
        &jv("{\"type\":\"function\", \"function\": {\"name\":\"f\"}}")
    ));
}

#[test]
fn function_output_text_handles_array_items() {
    let value = jv(
        "[{\"type\": \"input_text\", \"text\": \"line1\"},\
          {\"type\": \"output_text\", \"text\": \"line2\"}]",
    );
    assert_eq!(function_output_to_text(&value), "line1\nline2");
}

#[test]
fn normalize_chat_tools_passes_non_function_tool() {
    let tools = vec![jv("{\"type\": \"web_search_preview\"}")];
    let out = normalize_chat_tools(&tools, &vec![]);
    assert_eq!(out.len(), 1);
    assert!(json_eq(&out[0], &jv("{\"type\": \"web_search_preview\"}")));
}

#[test]
fn flatten_content_items_filters_non_text() {
    let items = vec![
        jv("{\"type\":\"input_text\",\"text\":\"a\"}"),
        jv("{\"type\":\"input_image\",\"image_url\":\"x\"}"),
        jv("{\"type\":\"output_text\",\"text\":\"b\"}"),
    ];
    assert_eq!(flatten_content_items(&items), "a\nb");
}

#[test]
fn map_supports_function_call_output_to_tool_message() {
    let input = jv(
        "{\"model\": \"gpt-4.1\",\
          \"input\": [{\"type\": \"function_call_output\",\"call_id\": \"call_1\",\
          \"output\": \"{\\\"ok\\\":true}\"}],\"tools\": []}",
    );
    let req = map_responses_to_chat_request(&input, &vec![]).expect("should map");
    let messages = req
        .chat_request
        .get("messages")
        .and_then(|m| m.as_arr())
        .expect("messages");
    assert_eq!(messages.len(), 1);
    assert_eq!(messages[0].get_str("role").unwrap().as_str(), "tool");
    assert_eq!(messages[0].get_str("tool_call_id").unwrap().as_str(), "call_1");
}

#[test]
fn map_supports_function_call_to_assistant_tool_call() {
    let input = jv(
        "{\"model\": \"gpt-4.1\",\
          \"input\": [{\"type\": \"function_call\",\"call_id\": \"call_1\",\
          \"name\": \"get_weather\",\"arguments\": \"{\\\"city\\\":\\\"seoul\\\"}\"}],\
          \"tools\": []}",
    );
    let req = map_responses_to_chat_request(&input, &vec![]).expect("should map");
    let messages = req
        .chat_request
        .get("messages")
        .and_then(|m| m.as_arr())
        .expect("messages");
    assert_eq!(messages.len(), 1);
    assert_eq!(messages[0].get_str("role").unwrap().as_str(), "assistant");
    let calls = messages[0]
        .get("tool_calls")
        .and_then(|t| t.as_arr())
        .expect("tool_calls");
    assert_eq!(calls[0].get_str("id").unwrap().as_str(), "call_1");
    assert_eq!(calls[0].get_str("type").unwrap().as_str(), "function");
    assert_eq!(
        calls[0]
            .get("function")
            .and_then(|f| f.get_str("name"))
            .unwrap()
            .as_str(),
        "get_weather"
    );
}

#[test]
fn map_defaults_tool_choice_when_invalid() {
    let input = jv(
        "{\"model\": \"gpt-4.1\",\
          \"input\": [{\"type\":\"message\",\"role\":\"user\",\
          \"content\":[{\"type\":\"input_text\",\"text\":\"hi\"}]}],\
          \"tools\": [{\"type\":\"function\",\"name\":\"f\",\
          \"parameters\":{\"type\":\"object\"}}],\"tool_choice\": 123}",
    );
    let req = map_responses_to_chat_request(&input, &vec![]).expect("should map");
    assert_eq!(req.chat_request.get_str("tool_choice").unwrap().as_str(), "auto");
}

#[test]
fn map_requires_input_array() {
    let input = jv("{\"model\":\"gpt-4.1\"}");
    let err = map_responses_to_chat_request(&input, &vec![]).expect_err("must fail");
    assert!(err.message().contains("missing `input` array"));
}

#[test]
fn map_removes_tool_fields_when_tools_empty() {
    let input = jv(
        "{\"model\": \"gpt-4.1\",\
          \"input\": [{\"type\":\"message\",\"role\":\"user\",\
          \"content\":[{\"type\":\"input_text\",\"text\":\"hi\"}]}],\"tools\": []}",
    );
    let req = map_responses_to_chat_request(&input, &vec![]).expect("ok");
    assert!(req.chat_request.get("tools").is_none());
    assert!(req.chat_request.get("tool_choice").is_none());
}

#[test]
fn normalize_chat_tools_keeps_function_already_wrapped() {
    let tools = vec![jv(
        "{\"type\": \"function\",\"function\": {\"name\":\"f\", \"parameters\": {\"type\":\"object\"}}}",
    )];
    let out = normalize_chat_tools(&tools, &vec![]);
    assert_eq!(out.len(), 1);
    assert!(json_eq(&out[0], &tools[0]));
}

#[test]
fn normalize_tool_choice_preserves_wrapped_choice() {
    let choice = jv("{\"type\":\"function\", \"function\":{\"name\":\"do_it\"}}");
    let normalized = normalize_tool_choice(jv(
        "{\"type\":\"function\", \"function\":{\"name\":\"do_it\"}}",
    ));
    assert!(json_eq(&normalized, &choice));
}

#[test]
fn function_output_to_text_for_object_uses_json() {
    let value = jv("{\"ok\": true}");
    assert_eq!(function_output_to_text(&value), "{\"ok\":true}");
}

#[test]
fn map_includes_system_message_from_instructions() {
    let input = jv(
        "{\"model\": \"gpt-4.1\",\"instructions\": \"sys\",\
          \"input\": [{\"type\":\"message\",\"role\":\"user\",\
          \"content\":[{\"type\":\"input_text\",\"text\":\"hi\"}]}],\"tools\": []}",
    );
    let req = map_responses_to_chat_request(&input, &vec![]).expect("ok");
    let messages = req
        .chat_request
        .get("messages")
        .and_then(|m| m.as_arr())
        .expect("array");
    assert_eq!(messages[0].get_str("role").unwrap().as_str(), "system");
}

#[test]
fn normalize_chat_tools_drops_configured_tool_types() {
    let tools = vec![
        jv("{\"type\": \"web_search_preview\"}"),
        jv("{\"type\": \"function\", \"name\": \"f\", \"parameters\": {\"type\":\"object\"}}"),
    ];
    let drop = vec!["web_search_preview".to_string()];
    let out = normalize_chat_tools(&tools, &drop);
    assert_eq!(out.len(), 1);
    assert_eq!(out[0].get_str("type").unwrap().as_str(), "function");
}

#[test]
fn apply_request_filters_drops_tool_type_for_chat_input() {
    let request = jv(
        "{\"model\": \"gpt-4.1\",\
          \"tools\": [{\"type\":\"web_search_preview\"},\
          {\"type\":\"function\",\"function\":{\"name\":\"f\",\
          \"parameters\":{\"type\":\"object\"}}}],\"tool_choice\": \"auto\"}",
    );
    let drop = vec!["web_search_preview".to_string()];
    let filtered = apply_request_filters(IncomingApi::Chat, request, &drop);
    let tools = filtered.get("tools").and_then(|t| t.as_arr()).expect("tools");
    assert_eq!(tools.len(), 1);
    assert_eq!(tools[0].get_str("type").unwrap().as_str(), "function");
}

#[test]
fn apply_request_filters_removes_all_tool_fields_when_empty() {
    let request = jv(
        "{\"model\": \"gpt-4.1\",\"tools\": [{\"type\":\"web_search_preview\"}],\
          \"tool_choice\": \"auto\"}",
    );
    let drop = vec!["web_search_preview".to_string()];
    let filtered = apply_request_filters(IncomingApi::Responses, request, &drop);
    assert!(filtered.get("tools").is_none());
    assert!(filtered.get("tool_choice").is_none());
}

#[test]
fn map_chat_to_responses_request_converts_messages() {
    let chat = jv(
        "{\"model\": \"gpt-4.1\",\"messages\": [{\"role\":\"user\",\"content\":\"hello\"}],\
          \"stream\": false}",
    );
    let out = map_chat_to_responses_request(&chat, false).expect("ok");
    assert_eq!(out.get_str("model").unwrap().as_str(), "gpt-4.1");
    assert_eq!(out.get("stream").and_then(|s| s.as_bool()), Some(false));
    let input = out.get("input").and_then(|x| x.as_arr()).expect("input");
    assert_eq!(input[0].get_str("type").unwrap().as_str(), "message");
    let parts = input[0]
        .get("content")
        .and_then(|c| c.as_arr())
        .expect("content");
    assert_eq!(parts[0].get_str("text").unwrap().as_str(), "hello");
}

#[test]
fn map_chat_to_responses_sets_stream_true() {
    let chat = jv(
        "{\"model\":\"m\",\"messages\":[{\"role\":\"user\",\"content\":\"hi\"}],\
          \"stream\":false}",
    );
    let out = map_chat_to_responses_request(&chat, true).expect("ok");
    assert_eq!(out.get("stream").and_then(|s| s.as_bool()), Some(true));
    let input = out.get("input").and_then(|x| x.as_arr()).expect("input");
    assert_eq!(input.len(), 1);
    assert!(json_eq(
        &input[0],
        &jv("{\"type\":\"message\",\"role\":\"user\",\"content\":[{\"type\":\"input_text\",\"text\":\"hi\"}]}")
    ));
}

#[test]
fn responses_tool_choice_unwraps_function_form() {
    let rewrapped = normalize_responses_tool_choice(jv(
        "{\"type\":\"function\",\"function\":{\"name\":\"f\"}}",
    ));
    assert!(json_eq(&rewrapped, &jv("{\"type\":\"function\",\"name\":\"f\"}")));
}

#[test]
fn filtered_then_transcoded_tools_are_wrapped() {
    let request = jv(
        "{\"model\":\"m\",\
          \"input\":[{\"type\":\"message\",\"role\":\"user\",\
          \"content\":[{\"type\":\"input_text\",\"text\":\"hi\"}]}],\
          \"tools\":[{\"type\":\"web_search_preview\"},\
          {\"type\":\"function\",\"name\":\"f\",\"parameters\":{\"type\":\"object\"}}]}",
    );
    let drop = vec!["web_search_preview".to_string()];
    let filtered = apply_request_filters(IncomingApi::Responses, request, &drop);
    let req = map_responses_to_chat_request(&filtered, &vec![]).expect("ok");
    let tools = req
        .chat_request
        .get("tools")
        .and_then(|t| t.as_arr())
        .expect("tools");
    assert_eq!(tools.len(), 1);
    assert!(json_eq(
        &tools[0],
        &jv("{\"type\":\"function\",\"function\":{\"name\":\"f\",\
             \"description\":\"\",\"parameters\":{\"type\":\"object\"}}}")
    ));
}

#[test]
fn wrapped_tool_gets_default_parameters() {
    let tools = vec![jv("{\"type\":\"function\",\"name\":\"f\"}")];
    let out = normalize_chat_tools(&tools, &vec![]);
    assert!(json_eq(
        &out[0],
        &jv("{\"type\":\"function\",\"function\":{\"name\":\"f\",\"description\":\"\",\
             \"parameters\":{\"type\":\"object\",\"properties\":{}}}}")
    ));
}

#[test]
fn unknown_input_items_are_skipped() {
    let input = jv(
        "{\"model\":\"m\",\"input\":[{\"type\":\"mystery\",\"data\":1},\
          {\"type\":\"message\",\"role\":\"user\",\
          \"content\":[{\"type\":\"input_text\",\"text\":\"hi\"}]}]}",
    );
    let req = map_responses_to_chat_request(&input, &vec![]).expect("ok");
    let messages = req
        .chat_request
        .get("messages")
        .and_then(|m| m.as_arr())
        .expect("messages");
    assert_eq!(messages.len(), 1);
    assert_eq!(messages[0].get_str("role").unwrap().as_str(), "user");
}

#[test]
fn mcp_tool_output_is_serialized() {
    let input = jv(
        "{\"model\":\"m\",\"input\":[{\"type\":\"mcp_tool_call_output\",\
          \"call_id\":\"c1\",\"result\":{\"ok\":true}}]}",
    );
    let req = map_responses_to_chat_request(&input, &vec![]).expect("ok");
    let messages = req
        .chat_request
        .get("messages")
        .and_then(|m| m.as_arr())
        .expect("messages");
    assert_eq!(messages[0].get_str("content").unwrap().as_str(), "{\"ok\":true}");
}

#[test]
fn function_call_without_call_id_gets_fresh_one() {
    let input = jv(
        "{\"model\":\"m\",\"input\":[{\"type\":\"function_call\",\
          \"name\":\"f\",\"arguments\":{\"a\":1}}]}",
    );
    let req = map_responses_to_chat_request(&input, &vec![]).expect("ok");
    let messages = req
        .chat_request
        .get("messages")
        .and_then(|m| m.as_arr())
        .expect("messages");
    let calls = messages[0]
        .get("tool_calls")
        .and_then(|t| t.as_arr())
        .expect("tool_calls");
    let id = calls[0].get_str("id").unwrap();
    assert!(id.starts_with("call_"));
    assert_eq!(
        calls[0]
            .get("function")
            .and_then(|f| f.get_str("arguments"))
            .unwrap()
            .as_str(),
        "{\"a\":1}"
    );
}

#[test]
fn json_text_writes_extreme_integers() {
    assert_eq!(Json::Int(i64::MIN).to_text(), "-9223372036854775808");
    assert_eq!(Json::Int(i64::MAX).to_text(), "9223372036854775807");
    assert_eq!(Json::Int(0).to_text(), "0");
}

#[test]
fn json_text_escapes_control_characters() {
    let doc = jv("{\"a\":\"tab\\tbell\\u0007\"}");
    assert_eq!(doc.to_text(), "{\"a\":\"tab\\tbell\\u0007\"}");
}

#[test]
fn non_integer_numbers_pass_through_verbatim() {
    let doc = jv("{\"temperature\":0.75,\"n\":2}");
    assert_eq!(doc.to_text(), "{\"n\":2,\"temperature\":0.75}");
}
