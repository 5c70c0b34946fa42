use companion_core::decode::StreamMessage;
use companion_core::parser::StreamJsonParser;

#[test]
fn test_parse_single_complete_message() {
    let mut parser = StreamJsonParser::new();
    let input = "{\"type\":\"message\",\"role\":\"assistant\",\"content\":\"hello\"}\n";
    let messages = parser.parse_chunk(input.as_bytes());
    assert_eq!(messages.len(), 1);
    match &messages[0] {
        StreamMessage::Assistant { role, .. } => {
            assert_eq!(role, "assistant");
        }
        _ => panic!("Expected Assistant message"),
    }
}

#[test]
fn test_parse_multiple_messages_in_one_chunk() {
    let mut parser = StreamJsonParser::new();
    let input = "{\"type\":\"system\",\"session_id\":\"a\"}\n{\"type\":\"message\",\"role\":\"assistant\"}\n{\"type\":\"result\"}\n";
    let messages = parser.parse_chunk(input.as_bytes());
    assert_eq!(messages.len(), 3);
}

#[test]
fn test_parse_empty_lines_ignored() {
    let mut parser = StreamJsonParser::new();
    let input = "\n\n{\"type\":\"system\"}\n\n\n";
    let messages = parser.parse_chunk(input.as_bytes());
    assert_eq!(messages.len(), 1);
}

#[test]
fn test_partial_line_buffered() {
    let mut parser = StreamJsonParser::new();

    let chunk1 = "{\"type\":\"mess";
    let messages1 = parser.parse_chunk(chunk1.as_bytes());
    assert_eq!(messages1.len(), 0);

    let chunk2 = "age\",\"role\":\"assistant\"}\n";
    let messages2 = parser.parse_chunk(chunk2.as_bytes());
    assert_eq!(messages2.len(), 1);
}

#[test]
fn test_message_split_across_three_chunks() {
    let mut parser = StreamJsonParser::new();

    parser.parse_chunk("{\"ty".as_bytes());
    parser.parse_chunk("pe\":\"me".as_bytes());
    let messages = parser.parse_chunk("ssage\"}".as_bytes());
    assert_eq!(messages.len(), 0); // No newline yet

    let messages = parser.parse_chunk("\n".as_bytes());
    assert_eq!(messages.len(), 1);
}

#[test]
fn test_newline_in_middle_of_chunk() {
    let mut parser = StreamJsonParser::new();
    let input = "{\"type\":\"system\"}\n{\"type\":\"mess";
    let messages = parser.parse_chunk(input.as_bytes());
    assert_eq!(messages.len(), 1); // Only first complete

    let messages = parser.parse_chunk("age\"}\n".as_bytes());
    assert_eq!(messages.len(), 1); // Second now complete
}

#[test]
fn test_malformed_json_skipped_gracefully() {
    let mut parser = StreamJsonParser::new();
    let input = "not valid json\n{\"type\":\"system\"}\n";
    let messages = parser.parse_chunk(input.as_bytes());
    assert_eq!(messages.len(), 1);
}

#[test]
fn test_truncated_json_skipped() {
    let mut parser = StreamJsonParser::new();
    let input = "{\"type\":\n{\"type\":\"system\"}\n";
    let messages = parser.parse_chunk(input.as_bytes());
    assert_eq!(messages.len(), 1);
}

#[test]
fn test_empty_object() {
    let mut parser = StreamJsonParser::new();
    let input = "{}\n";
    let messages = parser.parse_chunk(input.as_bytes());
    assert_eq!(messages.len(), 1);
}

#[test]
fn test_tool_use_message() {
    let mut parser = StreamJsonParser::new();
    let input = "{\"type\":\"tool_use\",\"id\":\"123\",\"name\":\"Read\",\"input\":{\"file_path\":\"/test.txt\"}}\n";
    let messages = parser.parse_chunk(input.as_bytes());
    assert_eq!(messages.len(), 1);
    match &messages[0] {
        StreamMessage::ToolUse { id, name, .. } => {
            assert_eq!(id, "123");
            assert_eq!(name, "Read");
        }
        _ => panic!("Expected ToolUse message"),
    }
}

#[test]
fn test_tool_result_message() {
    let mut parser = StreamJsonParser::new();
    let input = "{\"type\":\"tool_result\",\"tool_use_id\":\"123\",\"content\":\"file contents\"}\n";
    let messages = parser.parse_chunk(input.as_bytes());
    assert_eq!(messages.len(), 1);
    match &messages[0] {
        StreamMessage::ToolResult { tool_use_id, .. } => {
            assert_eq!(tool_use_id, "123");
        }
        _ => panic!("Expected ToolResult message"),
    }
}

#[test]
fn test_result_message() {
    let mut parser = StreamJsonParser::new();
    let input = "{\"type\":\"result\",\"cost_usd\":0.05,\"duration_ms\":1234}\n";
    let messages = parser.parse_chunk(input.as_bytes());
    assert_eq!(messages.len(), 1);
    match &messages[0] {
        StreamMessage::TurnResult { cost_micros, duration_ms } => {
            // 0.05 units are exactly 50_000 micro-units
            assert_eq!(*cost_micros, Some(50_000));
            assert_eq!(*duration_ms, Some(1234));
        }
        _ => panic!("Expected Result message"),
    }
}

#[test]
fn test_error_message() {
    let mut parser = StreamJsonParser::new();
    let input = "{\"type\":\"error\",\"error\":{\"message\":\"Rate limited\"}}\n";
    let messages = parser.parse_chunk(input.as_bytes());
    assert_eq!(messages.len(), 1);
    match &messages[0] {
        StreamMessage::Error { error, .. } => {
            assert_eq!(error.message, "Rate limited");
        }
        _ => panic!("Expected Error message"),
    }
}

#[test]
fn test_unknown_type_uses_fallback() {
    let mut parser = StreamJsonParser::new();
    let input = "{\"type\":\"future_type\",\"data\":\"something\"}\n";
    let messages = parser.parse_chunk(input.as_bytes());
    assert_eq!(messages.len(), 1);
    assert!(matches!(messages[0], StreamMessage::Unknown));
}

#[test]
fn test_flush_returns_partial_on_eof() {
    let mut parser = StreamJsonParser::new();
    parser.parse_chunk("{\"type\":\"system\"}".as_bytes());
    let flushed = parser.flush();
    assert!(flushed.is_some());
}

#[test]
fn test_crlf_line_endings() {
    let mut parser = StreamJsonParser::new();
    let input = "{\"type\":\"system\"}\r\n{\"type\":\"message\"}\r\n";
    let messages = parser.parse_chunk(input.as_bytes());
    assert_eq!(messages.len(), 2);
}

#[test]
fn test_mixed_line_endings() {
    let mut parser = StreamJsonParser::new();
    let input = "{\"type\":\"system\"}\n{\"type\":\"message\"}\r\n{\"type\":\"result\"}\n";
    let messages = parser.parse_chunk(input.as_bytes());
    assert_eq!(messages.len(), 3);
}

#[test]
fn test_unicode_content() {
    let mut parser = StreamJsonParser::new();
    let input = "{\"type\":\"message\",\"content\":\"Hello World\"}\n";
    let messages = parser.parse_chunk(input.as_bytes());
    assert_eq!(messages.len(), 1);
}

#[test]
fn test_has_pending() {
    let mut parser = StreamJsonParser::new();
    assert!(!parser.has_pending());
    parser.parse_chunk("{\"type\":\"partial".as_bytes());
    assert!(parser.has_pending());
}

#[test]
fn test_clear() {
    let mut parser = StreamJsonParser::new();
    parser.parse_chunk("{\"type\":\"partial".as_bytes());
    assert!(parser.has_pending());
    parser.clear();
    assert!(!parser.has_pending());
}

// Any chunking split of a stream decodes to the same message sequence as
// feeding the whole stream at once.
#[test]
fn test_chunking_invariance_concrete() {
    let stream = "{\"type\":\"system\",\"session_id\":\"abc\"}\n{\"type\":\"result\",\"cost_usd\":0.05,\"duration_ms\":1234}\n";

    let mut whole = StreamJsonParser::new();
    let all = whole.parse_chunk(stream.as_bytes());
    assert_eq!(all.len(), 2);

    for split_a in 0..stream.len() {
        for split_b in split_a..stream.len() {
            let mut parser = StreamJsonParser::new();
            let mut collected = Vec::new();
            collected.extend(parser.parse_chunk(stream[..split_a].as_bytes()));
            collected.extend(parser.parse_chunk(stream[split_a..split_b].as_bytes()));
            collected.extend(parser.parse_chunk(stream[split_b..].as_bytes()));
            assert_eq!(collected, all);
            assert!(!parser.has_pending());
        }
    }
}

// A bad line is dropped without affecting valid lines in later chunks.
#[test]
fn test_bad_line_does_not_affect_later_chunks() {
    let mut parser = StreamJsonParser::new();
    let first = parser.parse_chunk("this is {not json\n".as_bytes());
    assert_eq!(first.len(), 0);
    let second = parser.parse_chunk("{\"type\":\"system\",\"session_id\":\"s\"}\n".as_bytes());
    assert_eq!(second.len(), 1);
    match &second[0] {
        StreamMessage::System { session_id } => {
            assert_eq!(session_id.as_deref(), Some("s"));
        }
        _ => panic!("Expected System message"),
    }
}

// Flushing yields the residual decode exactly once and empties the state.
#[test]
fn test_flush_yields_residual_exactly_once() {
    let mut parser = StreamJsonParser::new();
    parser.parse_chunk("{\"type\":\"result\",\"cost_usd\":0.25}".as_bytes());
    let first = parser.flush();
    match first {
        Some(StreamMessage::TurnResult { cost_micros, duration_ms }) => {
            assert_eq!(cost_micros, Some(250_000));
            assert_eq!(duration_ms, None);
        }
        _ => panic!("Expected TurnResult message"),
    }
    assert!(!parser.has_pending());
    assert!(parser.flush().is_none());
}

// The worked result line, split at every possible pair of byte positions.
#[test]
fn test_result_message_any_three_way_split() {
    let line = "{\"type\":\"result\",\"cost_usd\":0.05,\"duration_ms\":1234}\n";
    for i in 0..line.len() {
        for j in i..line.len() {
            let mut parser = StreamJsonParser::new();
            let mut messages = Vec::new();
            messages.extend(parser.parse_chunk(line[..i].as_bytes()));
            messages.extend(parser.parse_chunk(line[i..j].as_bytes()));
            messages.extend(parser.parse_chunk(line[j..].as_bytes()));
            assert_eq!(messages.len(), 1);
            match &messages[0] {
                StreamMessage::TurnResult { cost_micros, duration_ms } => {
                    assert_eq!(*cost_micros, Some(50_000));
                    assert_eq!(*duration_ms, Some(1234));
                }
                _ => panic!("Expected Result message"),
            }
        }
    }
}

#[test]
fn test_content_block_messages() {
    let mut parser = StreamJsonParser::new();
    let input = "{\"type\":\"content_block_start\",\"index\":0,\"content_block\":{}}\n{\"type\":\"content_block_delta\",\"index\":0,\"delta\":{\"text\":\"hi\"}}\n{\"type\":\"content_block_stop\",\"index\":0}\n";
    let messages = parser.parse_chunk(input.as_bytes());
    assert_eq!(messages.len(), 3);
    assert!(matches!(messages[0], StreamMessage::ContentBlockStart { index: 0, .. }));
    assert!(matches!(messages[1], StreamMessage::ContentBlockDelta { index: 0, .. }));
    assert!(matches!(messages[2], StreamMessage::ContentBlockStop { index: 0 }));
}

// A known field with the wrong type makes the line Unknown, not an error.
#[test]
fn test_malformed_known_field_falls_back_to_unknown() {
    let mut parser = StreamJsonParser::new();
    let input = "{\"type\":\"result\",\"cost_usd\":\"not a number\"}\n{\"type\":\"tool_use\",\"name\":\"Read\"}\n";
    let messages = parser.parse_chunk(input.as_bytes());
    assert_eq!(messages.len(), 2);
    assert!(matches!(messages[0], StreamMessage::Unknown));
    assert!(matches!(messages[1], StreamMessage::Unknown));
}

// A chunk that is not valid UTF-8 on its own is dropped whole.
#[test]
fn test_invalid_utf8_chunk_dropped() {
    let mut parser = StreamJsonParser::new();
    let messages = parser.parse_chunk(&[0xff, 0xfe, b'\n']);
    assert_eq!(messages.len(), 0);
    assert!(!parser.has_pending());
    let messages = parser.parse_chunk("{\"type\":\"system\"}\n".as_bytes());
    assert_eq!(messages.len(), 1);
}
