use chat_bridge::stream::{ChatStreamTranslator, StreamEvent, Usage};

fn run_stream(chunks: &[&str]) -> Vec<StreamEvent> {
    let (mut translator, created) = ChatStreamTranslator::new("resp_1".to_string());
    let mut events = vec![created];
    for chunk in chunks {
        events.extend(translator.on_chunk(chunk));
    }
    events.extend(translator.finish());
    events
}

#[test]
fn stream_emits_output_item_added_before_text_delta() {
    let events = run_stream(&["data: {\"choices\":[{\"delta\":{\"content\":\"Hi\"}}]}\n\ndata: [DONE]\n\n"]);
    let mut payload = String::new();
    for event in &events {
        payload.push_str(&event.to_sse());
    }
    let added_idx = payload
        .find("event: response.output_item.added")
        .expect("added event");
    let delta_idx = payload
        .find("event: response.output_text.delta")
        .expect("delta event");
    assert!(added_idx < delta_idx);
}

#[test]
fn stream_translates_two_text_deltas() {
    let events = run_stream(&[
        "data: {\"choices\":[{\"delta\":{\"content\":\"He\"}}]}\n\n",
        "data: {\"choices\":[{\"delta\":{\"content\":\"llo\"}}]}\n\n",
        "data: [DONE]\n\n",
    ]);
    assert_eq!(events.len(), 6);
    assert_eq!(events[0], StreamEvent::Created { id: "resp_1".to_string() });
    assert_eq!(events[1], StreamEvent::ItemAdded);
    assert_eq!(events[2], StreamEvent::TextDelta { delta: "He".to_string() });
    assert_eq!(events[3], StreamEvent::TextDelta { delta: "llo".to_string() });
    assert_eq!(events[4], StreamEvent::MessageDone { text: "Hello".to_string() });
    assert_eq!(
        events[5],
        StreamEvent::Completed { id: "resp_1".to_string(), usage: None }
    );
}

#[test]
fn stream_aggregates_tool_call_fragments() {
    let events = run_stream(&[
        "data: {\"choices\":[{\"delta\":{\"tool_calls\":[{\"index\":0,\"id\":\"call_x\",\"function\":{\"name\":\"f\"}}]}}]}\n\n",
        "data: {\"choices\":[{\"delta\":{\"tool_calls\":[{\"index\":0,\"function\":{\"arguments\":\"{\\\"a\\\":\"}}]}}]}\n\n",
        "data: {\"choices\":[{\"delta\":{\"tool_calls\":[{\"index\":0,\"function\":{\"arguments\":\"1}\"}}]}}]}\n\n",
        "data: [DONE]\n\n",
    ]);
    assert_eq!(events.len(), 3);
    assert_eq!(
        events[1],
        StreamEvent::FunctionCallDone {
            name: "f".to_string(),
            args: "{\"a\":1}".to_string(),
            call_id: "call_x".to_string(),
        }
    );
    assert!(matches!(events[2], StreamEvent::Completed { .. }));
}

#[test]
fn stream_orders_tool_calls_by_index() {
    let events = run_stream(&[
        "data: {\"choices\":[{\"delta\":{\"tool_calls\":[{\"index\":2,\"id\":\"call_b\",\"function\":{\"name\":\"g\",\"arguments\":\"{}\"}}]}}]}\n\n",
        "data: {\"choices\":[{\"delta\":{\"tool_calls\":[{\"index\":1,\"id\":\"call_a\",\"function\":{\"name\":\"f\",\"arguments\":\"{}\"}}]}}]}\n\n",
        "data: [DONE]\n\n",
    ]);
    assert_eq!(events.len(), 4);
    match (&events[1], &events[2]) {
        (
            StreamEvent::FunctionCallDone { call_id: first, .. },
            StreamEvent::FunctionCallDone { call_id: second, .. },
        ) => {
            assert_eq!(first.as_str(), "call_a");
            assert_eq!(second.as_str(), "call_b");
        }
        other => panic!("unexpected events: {:?}", other),
    }
}

#[test]
fn stream_records_last_usage() {
    let events = run_stream(&[
        "data: {\"choices\":[{\"delta\":{\"content\":\"x\"}}],\"usage\":{\"prompt_tokens\":1,\"completion_tokens\":2,\"total_tokens\":3}}\n\n",
        "data: [DONE]\n\n",
    ]);
    let last = events.last().expect("terminal event");
    assert_eq!(
        *last,
        StreamEvent::Completed {
            id: "resp_1".to_string(),
            usage: Some(Usage { prompt_tokens: 1, completion_tokens: 2, total_tokens: 3 }),
        }
    );
}

#[test]
fn stream_skips_undecodable_payloads() {
    let events = run_stream(&[
        "data: this is not json\n\n",
        "data: {\"choices\":\"broken\"}\n\n",
        "data: {\"choices\":[{\"delta\":{\"content\":\"ok\"}}]}\n\n",
        "data: [DONE]\n\n",
    ]);
    assert_eq!(events.len(), 5);
    assert_eq!(events[2], StreamEvent::TextDelta { delta: "ok".to_string() });
}

#[test]
fn stream_completes_without_trailing_done() {
    let events = run_stream(&["data: {\"choices\":[{\"delta\":{\"content\":\"x\"}}]}\n\n"]);
    assert!(matches!(events.last(), Some(StreamEvent::Completed { .. })));
}

#[test]
fn stream_synthesizes_missing_call_id() {
    let events = run_stream(&[
        "data: {\"choices\":[{\"delta\":{\"tool_calls\":[{\"index\":4,\"function\":{\"name\":\"f\",\"arguments\":\"{}\"}}]}}]}\n\n",
        "data: [DONE]\n\n",
    ]);
    match &events[1] {
        StreamEvent::FunctionCallDone { call_id, .. } => {
            assert!(call_id.starts_with("call_"));
            assert!(call_id.ends_with("_4"));
        }
        other => panic!("unexpected event: {:?}", other),
    }
}

#[test]
fn stream_error_event_carries_code_and_id() {
    let (translator, _created) = ChatStreamTranslator::new("resp_9".to_string());
    let failed = translator.on_error("connection reset");
    assert_eq!(
        failed,
        StreamEvent::Failed {
            resp: Some("resp_9".to_string()),
            code: "upstream_stream_error".to_string(),
            message: "connection reset".to_string(),
        }
    );
    let frame = failed.to_sse();
    assert!(frame.starts_with("event: response.failed\ndata: "));
    assert!(frame.contains("\"code\":\"upstream_stream_error\""));
}

#[test]
fn stream_event_frames_are_exact() {
    let ev = StreamEvent::TextDelta { delta: "He".to_string() };
    assert_eq!(
        ev.to_sse(),
        "event: response.output_text.delta\ndata: {\"type\":\"response.output_text.delta\",\"delta\":\"He\"}\n\n"
    );
    let created = StreamEvent::Created { id: "r1".to_string() };
    assert_eq!(
        created.to_sse(),
        "event: response.created\ndata: {\"type\":\"response.created\",\"response\":{\"id\":\"r1\"}}\n\n"
    );
}

#[test]
fn stream_message_done_carries_concatenated_text() {
    let events = run_stream(&[
        "data: {\"choices\":[{\"delta\":{\"content\":\"a\"}}]}\n",
        "\ndata: {\"choices\":[{\"delta\":{\"content\":\"b\"}}]}\n\n",
        "data: [DONE]\n\n",
    ]);
    let done = events
        .iter()
        .find(|e| matches!(e, StreamEvent::MessageDone { .. }))
        .expect("message done");
    assert_eq!(*done, StreamEvent::MessageDone { text: "ab".to_string() });
}

#[test]
fn stream_skips_chunk_with_fractional_index() {
    let events = run_stream(&[
        "data: {\"choices\":[{\"delta\":{\"tool_calls\":[{\"index\":1.5,\"id\":\"call_x\"}]}}]}\n\n",
        "data: [DONE]\n\n",
    ]);
    assert_eq!(events.len(), 2);
    assert!(matches!(events[1], StreamEvent::Completed { .. }));
}

#[test]
fn stream_indexless_fragment_takes_next_slot() {
    let events = run_stream(&[
        "data: {\"choices\":[{\"delta\":{\"tool_calls\":[{\"id\":\"call_a\",\"function\":{\"name\":\"f\",\"arguments\":\"{}\"}}]}}]}\n\n",
        "data: {\"choices\":[{\"delta\":{\"tool_calls\":[{\"id\":\"call_b\",\"function\":{\"name\":\"g\",\"arguments\":\"{}\"}}]}}]}\n\n",
        "data: [DONE]\n\n",
    ]);
    assert_eq!(events.len(), 4);
    match (&events[1], &events[2]) {
        (
            StreamEvent::FunctionCallDone { call_id: a, .. },
            StreamEvent::FunctionCallDone { call_id: b, .. },
        ) => {
            assert_eq!(a.as_str(), "call_a");
            assert_eq!(b.as_str(), "call_b");
        }
        other => panic!("unexpected events: {:?}", other),
    }
}

#[test]
fn stream_empty_content_emits_nothing() {
    let events = run_stream(&[
        "data: {\"choices\":[{\"delta\":{\"content\":\"\"}}]}\n\n",
        "data: [DONE]\n\n",
    ]);
    assert_eq!(events.len(), 2);
    assert!(matches!(events[1], StreamEvent::Completed { .. }));
}

#[test]
fn stream_item_added_frame_is_exact() {
    assert_eq!(
        StreamEvent::ItemAdded.to_sse(),
        "event: response.output_item.added\ndata: {\"type\":\"response.output_item.added\",\
         \"item\":{\"type\":\"message\",\"role\":\"assistant\",\"content\":[{\"type\":\"output_text\",\"text\":\"\"}]}}\n\n"
    );
}

#[test]
fn stream_completed_frame_writes_null_usage() {
    let ev = StreamEvent::Completed { id: "r1".to_string(), usage: None };
    assert_eq!(
        ev.to_sse(),
        "event: response.completed\ndata: {\"type\":\"response.completed\",\
         \"response\":{\"id\":\"r1\",\"usage\":null}}\n\n"
    );
    let with_usage = StreamEvent::Completed {
        id: "r1".to_string(),
        usage: Some(Usage { prompt_tokens: 1, completion_tokens: 2, total_tokens: 3 }),
    };
    assert_eq!(
        with_usage.to_sse(),
        "event: response.completed\ndata: {\"type\":\"response.completed\",\
         \"response\":{\"id\":\"r1\",\"usage\":{\"input_tokens\":1,\"input_tokens_details\":null,\
         \"output_tokens\":2,\"output_tokens_details\":null,\"total_tokens\":3}}}\n\n"
    );
}

#[test]
fn stream_message_precedes_tool_calls_at_finish() {
    let events = run_stream(&[
        "data: {\"choices\":[{\"delta\":{\"content\":\"hi\",\"tool_calls\":[{\"index\":0,\"id\":\"call_x\",\"function\":{\"name\":\"f\",\"arguments\":\"{}\"}}]}}]}\n\n",
        "data: [DONE]\n\n",
    ]);
    assert_eq!(events.len(), 6);
    assert!(matches!(events[0], StreamEvent::Created { .. }));
    assert!(matches!(events[1], StreamEvent::ItemAdded));
    assert!(matches!(events[2], StreamEvent::TextDelta { .. }));
    assert!(matches!(events[3], StreamEvent::MessageDone { .. }));
    assert!(matches!(events[4], StreamEvent::FunctionCallDone { .. }));
    assert!(matches!(events[5], StreamEvent::Completed { .. }));
}
