use claude_gateway::converter::{
    ChunkChoice, ChunkDelta, ClaudeStreamConverter, ResponseType, UpstreamChunk,
};

fn delta_chunk(content: Option<&str>, thought: Option<bool>, signature: Option<&str>) -> UpstreamChunk {
    UpstreamChunk {
        choices: vec![ChunkChoice {
            delta: Some(ChunkDelta {
                content: content.map(|s| s.to_string()),
                thought,
                thought_signature: signature.map(|s| s.to_string()),
            }),
            finish_reason: None,
        }],
    }
}

fn text_chunk(content: &str) -> UpstreamChunk {
    delta_chunk(Some(content), None, None)
}

fn thought_chunk(content: &str) -> UpstreamChunk {
    delta_chunk(Some(content), Some(true), None)
}

fn finish_chunk(reason: &str) -> UpstreamChunk {
    UpstreamChunk {
        choices: vec![ChunkChoice {
            delta: None,
            finish_reason: Some(reason.to_string()),
        }],
    }
}

fn heartbeat() -> UpstreamChunk {
    UpstreamChunk { choices: vec![] }
}

#[test]
fn heartbeat_changes_nothing() {
    let mut conv = ClaudeStreamConverter::new();
    let events = conv.process_chunk(&heartbeat());
    assert!(events.is_empty());
    assert_eq!(conv.response_index, 0);
    assert_eq!(conv.current_type, ResponseType::Idle);
    assert!(!conv.has_content);
}

#[test]
fn consecutive_text_chunks_share_one_block() {
    let mut conv = ClaudeStreamConverter::new();

    let first = conv.process_chunk(&text_chunk("A"));
    assert_eq!(first.len(), 2);
    assert_eq!(first[0].event, "content_block_start");
    assert_eq!(
        first[0].data,
        "{\"content_block\":{\"text\":\"\",\"type\":\"text\"},\"index\":0,\"type\":\"content_block_start\"}"
    );
    assert_eq!(first[1].event, "content_block_delta");
    assert_eq!(
        first[1].data,
        "{\"delta\":{\"text\":\"A\",\"type\":\"text_delta\"},\"index\":0,\"type\":\"content_block_delta\"}"
    );

    let second = conv.process_chunk(&text_chunk("B"));
    assert_eq!(second.len(), 1);
    assert_eq!(second[0].event, "content_block_delta");
    assert_eq!(
        second[0].data,
        "{\"delta\":{\"text\":\"B\",\"type\":\"text_delta\"},\"index\":0,\"type\":\"content_block_delta\"}"
    );

    assert_eq!(conv.response_index, 0);
    assert_eq!(conv.current_type, ResponseType::Text);
}

#[test]
fn thinking_to_text_closes_and_reopens_once() {
    let mut conv = ClaudeStreamConverter::new();

    let first = conv.process_chunk(&thought_chunk("t1"));
    assert_eq!(first.len(), 2);
    assert_eq!(first[0].event, "content_block_start");
    assert_eq!(
        first[0].data,
        "{\"content_block\":{\"text\":\"\",\"type\":\"text\"},\"index\":0,\"type\":\"content_block_start\"}"
    );
    assert_eq!(first[1].event, "content_block_delta");
    assert_eq!(
        first[1].data,
        "{\"delta\":{\"text\":\"t1\",\"type\":\"text_delta\"},\"index\":0,\"type\":\"content_block_delta\"}"
    );
    assert_eq!(conv.current_type, ResponseType::Thinking);

    let second = conv.process_chunk(&text_chunk("hello"));
    assert_eq!(second.len(), 3);
    assert_eq!(second[0].event, "content_block_stop");
    assert_eq!(second[0].data, "{\"index\":0,\"type\":\"content_block_stop\"}");
    assert_eq!(second[1].event, "content_block_start");
    assert_eq!(
        second[1].data,
        "{\"content_block\":{\"text\":\"\",\"type\":\"text\"},\"index\":1,\"type\":\"content_block_start\"}"
    );
    assert_eq!(second[2].event, "content_block_delta");
    assert_eq!(
        second[2].data,
        "{\"delta\":{\"text\":\"hello\",\"type\":\"text_delta\"},\"index\":1,\"type\":\"content_block_delta\"}"
    );

    assert_eq!(conv.response_index, 1);
    assert_eq!(conv.current_type, ResponseType::Text);
}

#[test]
fn finish_stop_closes_the_open_block() {
    let mut conv = ClaudeStreamConverter::new();
    conv.process_chunk(&text_chunk("A"));

    let events = conv.process_chunk(&finish_chunk("STOP"));
    assert_eq!(events.len(), 3);
    assert_eq!(events[0].event, "content_block_stop");
    assert_eq!(events[0].data, "{\"index\":0,\"type\":\"content_block_stop\"}");
    assert_eq!(events[1].event, "message_delta");
    assert_eq!(
        events[1].data,
        "{\"delta\":{\"stop_reason\":\"end_turn\",\"stop_sequence\":null},\"type\":\"message_delta\",\"usage\":{\"output_tokens\":0}}"
    );
    assert_eq!(events[2].event, "message_stop");
    assert_eq!(events[2].data, "{\"type\":\"message_stop\"}");

    assert_eq!(conv.response_index, 1);
    assert_eq!(conv.current_type, ResponseType::Idle);
}

#[test]
fn finish_reasons_map_to_the_downstream_vocabulary() {
    let expect = |reason: &str, mapped: &str| {
        let mut conv = ClaudeStreamConverter::new();
        let events = conv.process_chunk(&finish_chunk(reason));
        assert_eq!(events.len(), 2);
        assert_eq!(events[0].event, "message_delta");
        assert_eq!(
            events[0].data,
            format!(
                "{{\"delta\":{{\"stop_reason\":\"{}\",\"stop_sequence\":null}},\"type\":\"message_delta\",\"usage\":{{\"output_tokens\":0}}}}",
                mapped
            )
        );
        assert_eq!(events[1].event, "message_stop");
    };
    expect("MAX_TOKENS", "max_tokens");
    expect("length", "max_tokens");
    expect("stop", "end_turn");
    expect("STOP", "end_turn");
    expect("tool_calls", "tool_use");
    expect("function_call", "tool_use");
    expect("SOMETHING_NEW", "end_turn");
    expect("", "end_turn");
}

#[test]
fn has_content_latches_on_any_signal() {
    let mut conv = ClaudeStreamConverter::new();
    assert!(!conv.has_content);

    conv.process_chunk(&delta_chunk(None, None, Some("sig")));
    assert!(conv.has_content);

    conv.process_chunk(&heartbeat());
    assert!(conv.has_content);

    let mut by_thought = ClaudeStreamConverter::new();
    by_thought.process_chunk(&delta_chunk(None, Some(true), None));
    assert!(by_thought.has_content);

    let mut by_text = ClaudeStreamConverter::new();
    by_text.process_chunk(&text_chunk("x"));
    assert!(by_text.has_content);

    let mut by_nothing = ClaudeStreamConverter::new();
    by_nothing.process_chunk(&delta_chunk(Some(""), Some(false), None));
    assert!(!by_nothing.has_content);
}

#[test]
fn a_signature_opens_the_block_but_is_never_forwarded() {
    let mut conv = ClaudeStreamConverter::new();
    let events = conv.process_chunk(&delta_chunk(None, None, Some("opaque-signature")));
    assert_eq!(events.len(), 1);
    assert_eq!(events[0].event, "content_block_start");
    assert_eq!(conv.current_type, ResponseType::Thinking);
    for e in &events {
        assert!(!e.data.contains("opaque-signature"));
    }
}

#[test]
fn chunks_after_a_finish_still_do_not_crash() {
    let mut conv = ClaudeStreamConverter::new();
    conv.process_chunk(&text_chunk("A"));
    conv.process_chunk(&finish_chunk("STOP"));
    // Feeding more chunks after the finish signal is out of contract but
    // must not panic; no particular output is promised.
    let _ = conv.process_chunk(&text_chunk("late"));
    let _ = conv.process_chunk(&finish_chunk("STOP"));
}

#[test]
fn message_start_envelope_is_exact() {
    let e = ClaudeStreamConverter::create_message_start("msg_123", "gemini-pro");
    assert_eq!(e.event, "message_start");
    assert_eq!(
        e.data,
        "{\"message\":{\"content\":[],\"id\":\"msg_123\",\"model\":\"gemini-pro\",\"role\":\"assistant\",\"stop_reason\":null,\"stop_sequence\":null,\"type\":\"message\",\"usage\":{\"input_tokens\":0,\"output_tokens\":0}},\"type\":\"message_start\"}"
    );
}

#[test]
fn delta_text_is_json_escaped() {
    let mut conv = ClaudeStreamConverter::new();
    let events = conv.process_chunk(&text_chunk("he said \"hi\"\n\tback\\slash\u{1}"));
    assert_eq!(events.len(), 2);
    assert_eq!(
        events[1].data,
        "{\"delta\":{\"text\":\"he said \\\"hi\\\"\\n\\tback\\\\slash\\u0001\",\"type\":\"text_delta\"},\"index\":0,\"type\":\"content_block_delta\"}"
    );
}

#[test]
fn a_choice_with_no_delta_and_no_finish_is_inert() {
    let mut conv = ClaudeStreamConverter::new();
    let chunk = UpstreamChunk {
        choices: vec![ChunkChoice {
            delta: None,
            finish_reason: None,
        }],
    };
    let events = conv.process_chunk(&chunk);
    assert!(events.is_empty());
    assert_eq!(conv.response_index, 0);
    assert_eq!(conv.current_type, ResponseType::Idle);
    assert!(!conv.has_content);
}
