use chat_bridge::sse::SseParser;

#[test]
fn sse_parser_collects_data_events() {
    let mut parser = SseParser::new();
    let chunk = "event: message\ndata: {\"a\":1}\n\n";
    let events = parser.feed(chunk);
    assert_eq!(events.len(), 1);
    assert_eq!(events[0], "{\"a\":1}");
}

#[test]
fn parser_handles_split_chunks() {
    let mut parser = SseParser::new();
    let first = parser.feed("data: {\"a\":");
    assert!(first.is_empty());
    let second = parser.feed("1}\n\n");
    assert_eq!(second, vec!["{\"a\":1}".to_string()]);
}

#[test]
fn parser_ignores_non_data_lines() {
    let mut parser = SseParser::new();
    let out = parser.feed(": ping\nevent: hello\ndata: {\"z\":1}\n\n");
    assert_eq!(out, vec!["{\"z\":1}".to_string()]);
}

#[test]
fn parser_feed_is_concatenative() {
    let whole = "data: one\r\nid: 7\ndata: two\n\ndata: three\n\ndata: tail";
    for cut in 0..whole.len() {
        if !whole.is_char_boundary(cut) {
            continue;
        }
        let mut split_parser = SseParser::new();
        let mut split_events = split_parser.feed(&whole[..cut]);
        split_events.extend(split_parser.feed(&whole[cut..]));
        let split_tail = split_parser.finish();

        let mut whole_parser = SseParser::new();
        let whole_events = whole_parser.feed(whole);
        let whole_tail = whole_parser.finish();

        assert_eq!(split_events, whole_events);
        assert_eq!(split_tail, whole_tail);
    }
}

#[test]
fn parser_joins_multiple_data_lines() {
    let mut parser = SseParser::new();
    let out = parser.feed("data: one\ndata: two\n\n");
    assert_eq!(out, vec!["one\ntwo".to_string()]);
}

#[test]
fn parser_strips_one_leading_space_only() {
    let mut parser = SseParser::new();
    let out = parser.feed("data:  padded\ndata:bare\n\n");
    assert_eq!(out, vec![" padded\nbare".to_string()]);
}

#[test]
fn parser_finish_returns_pending_payload() {
    let mut parser = SseParser::new();
    let out = parser.feed("data: [DONE]\n");
    assert!(out.is_empty());
    assert_eq!(parser.finish(), Some("[DONE]".to_string()));
}

#[test]
fn parser_blank_line_without_pending_emits_nothing() {
    let mut parser = SseParser::new();
    let out = parser.feed("\n\nevent: x\n\n");
    assert!(out.is_empty());
    assert_eq!(parser.finish(), None);
}

#[test]
fn parser_handles_crlf_lines() {
    let mut parser = SseParser::new();
    let out = parser.feed("data: a\r\n\r\n");
    assert_eq!(out, vec!["a".to_string()]);
}
