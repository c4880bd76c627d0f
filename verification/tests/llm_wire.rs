use mash::anthropic::{anthropic_url, build_request, parse_sse_block_with_state, AnthropicSseDecoder};
use mash::llm::{ContentBlock, LlmRequest, Message, MessageContent, Role, StreamEvent};
use mash::openai::{
    openai_request_body, openai_url, parse_openai_response, to_openai_messages, to_openai_tools,
    OpenAiSseDecoder,
};
use serde_json::Value;

fn json(text: &str) -> Value {
    serde_json::from_str(text).unwrap()
}

fn text_of(ev: &StreamEvent) -> Option<&str> {
    match ev {
        StreamEvent::TextDelta(t) => Some(t.as_str()),
        _ => None,
    }
}

fn request() -> LlmRequest {
    LlmRequest {
        model: "m1".to_string(),
        system: "sys".to_string(),
        max_tokens: 64,
        messages: vec![Message { role: Role::User, content: MessageContent::Text("hi".to_string()) }],
        tools: vec![json(r#"{"name":"bash","description":"run","input_schema":{"type":"object"}}"#)],
    }
}

#[test]
fn endpoints_drop_trailing_slashes() {
    assert_eq!(anthropic_url("https://api.example.com/"), "https://api.example.com/v1/messages");
    assert_eq!(anthropic_url("http://h"), "http://h/v1/messages");
    assert_eq!(openai_url("https://x.io/v1//"), "https://x.io/v1/chat/completions");
}

#[test]
fn anthropic_request_copies_the_request() {
    let r = build_request(&request(), true);
    assert_eq!(r.model, "m1");
    assert_eq!(r.system, "sys");
    assert_eq!(r.max_tokens, 64);
    assert_eq!(r.messages.len(), 1);
    assert_eq!(r.tools.len(), 1);
    assert!(r.stream);
}

#[test]
fn sse_text_delta_flushes_thinking() {
    let mut pending = None;
    let mut thinking = "deep".to_string();
    let block = "event: content_block_delta\ndata: {\"delta\":{\"type\":\"text_delta\",\"text\":\"Hi\"}}";
    let evs = parse_sse_block_with_state(block, &mut pending, &mut thinking);
    assert_eq!(evs.len(), 2);
    match &evs[0] {
        StreamEvent::BlockComplete(ContentBlock::Thinking { thinking }) => assert_eq!(thinking, "deep"),
        _ => panic!("expected thinking"),
    }
    assert_eq!(text_of(&evs[1]), Some("Hi"));
    assert_eq!(thinking, "");
}

#[test]
fn sse_tool_call_is_assembled() {
    let mut pending = None;
    let mut thinking = String::new();
    let start = "event: content_block_start\ndata: {\"content_block\":{\"type\":\"tool_use\",\"id\":\"t1\",\"name\":\"bash\"}}";
    assert!(parse_sse_block_with_state(start, &mut pending, &mut thinking).is_empty());
    let d1 = "event: content_block_delta\ndata: {\"delta\":{\"type\":\"input_json_delta\",\"partial_json\":\"{\\\"command\\\":\"}}";
    let d2 = "event: content_block_delta\ndata: {\"delta\":{\"type\":\"input_json_delta\",\"partial_json\":\"\\\"ls\\\"}\"}}";
    parse_sse_block_with_state(d1, &mut pending, &mut thinking);
    parse_sse_block_with_state(d2, &mut pending, &mut thinking);
    let evs = parse_sse_block_with_state("event: content_block_stop\ndata: {}", &mut pending, &mut thinking);
    assert_eq!(evs.len(), 1);
    match &evs[0] {
        StreamEvent::BlockComplete(ContentBlock::ToolUse { id, name, input }) => {
            assert_eq!(id, "t1");
            assert_eq!(name, "bash");
            assert_eq!(input, &json(r#"{"command":"ls"}"#));
        }
        _ => panic!("expected tool use"),
    }
    assert!(pending.is_none());
}

#[test]
fn sse_stop_and_error_events() {
    let mut pending = None;
    let mut thinking = String::new();
    let evs = parse_sse_block_with_state(
        "event: message_delta\ndata: {\"delta\":{\"stop_reason\":\"end_turn\"}}",
        &mut pending,
        &mut thinking,
    );
    match &evs[0] {
        StreamEvent::Done { stop_reason } => assert_eq!(stop_reason.as_deref(), Some("end_turn")),
        _ => panic!("expected done"),
    }
    let evs = parse_sse_block_with_state("event: error\ndata: boom", &mut pending, &mut thinking);
    match &evs[0] {
        StreamEvent::Error(e) => assert_eq!(e, "boom"),
        _ => panic!("expected error"),
    }
    assert!(parse_sse_block_with_state("data: x", &mut pending, &mut thinking).is_empty());
}

#[test]
fn anthropic_decoder_is_chunking_independent() {
    let stream = "event: content_block_delta\ndata: {\"delta\":{\"type\":\"text_delta\",\"text\":\"A\"}}\n\nevent: message_stop\ndata: {}\n\nevent: content_block_delta\ndata: {\"delta\":{\"type\":\"text_delta\",\"text\":\"late\"}}\n\n";
    let mut whole = AnthropicSseDecoder::new();
    let all = whole.feed(stream);
    assert_eq!(all.len(), 2);
    assert_eq!(text_of(&all[0]), Some("A"));
    assert!(matches!(all[1], StreamEvent::Done { stop_reason: None }));
    assert!(whole.done);
    let mut split = AnthropicSseDecoder::new();
    let mut parts = Vec::new();
    for piece in [&stream[..10], &stream[10..57], &stream[57..]] {
        parts.extend(split.feed(piece));
    }
    assert_eq!(parts.len(), 2);
    assert_eq!(text_of(&parts[0]), Some("A"));
    assert!(split.feed("event: error\ndata: x\n\n").is_empty());
}

#[test]
fn openai_messages_are_converted() {
    let messages = vec![
        Message { role: Role::User, content: MessageContent::Text("q".to_string()) },
        Message {
            role: Role::Assistant,
            content: MessageContent::Blocks(vec![
                ContentBlock::Thinking { thinking: "hmm".to_string() },
                ContentBlock::Text { text: "a".to_string() },
                ContentBlock::Text { text: "b".to_string() },
                ContentBlock::ToolUse { id: "c1".to_string(), name: "bash".to_string(), input: json(r#"{"command":"ls"}"#) },
            ]),
        },
        Message {
            role: Role::User,
            content: MessageContent::Blocks(vec![ContentBlock::ToolResult {
                tool_use_id: "c1".to_string(),
                content: "out".to_string(),
                is_error: None,
            }]),
        },
    ];
    let out = to_openai_messages("sys", &messages);
    assert_eq!(out.len(), 4);
    assert_eq!(out[0], json(r#"{"role":"system","content":"sys"}"#));
    assert_eq!(out[1], json(r#"{"role":"user","content":"q"}"#));
    assert_eq!(
        out[2],
        json(r#"{"role":"assistant","content":"a\nb","reasoning_content":"hmm","tool_calls":[{"id":"c1","type":"function","function":{"name":"bash","arguments":"{\"command\":\"ls\"}"}}]}"#)
    );
    assert_eq!(out[3], json(r#"{"role":"tool","tool_call_id":"c1","content":"out"}"#));
}

#[test]
fn openai_tools_take_defaults() {
    let tools = vec![json(r#"{"name":"t","input_schema":{"type":"object"}}"#), json(r#"{"description":"d"}"#)];
    let out = to_openai_tools(&tools);
    assert_eq!(
        out[0],
        json(r#"{"type":"function","function":{"name":"t","description":"","parameters":{"type":"object"}}}"#)
    );
    assert_eq!(
        out[1],
        json(r#"{"type":"function","function":{"name":null,"description":"d","parameters":{}}}"#)
    );
}

#[test]
fn openai_body_has_stream_and_tools_when_asked() {
    let body = openai_request_body(&request(), true);
    assert_eq!(body["model"], "m1");
    assert_eq!(body["max_tokens"], 64);
    assert_eq!(body["stream"], true);
    assert_eq!(body["messages"].as_array().unwrap().len(), 2);
    assert_eq!(body["tools"][0]["function"]["name"], "bash");
    let mut r = request();
    r.tools.clear();
    let plain = openai_request_body(&r, false);
    assert!(plain.get("stream").is_none());
    assert!(plain.get("tools").is_none());
}

#[test]
fn openai_response_blocks_and_stop_reason() {
    let body = r#"{"choices":[{"message":{"reasoning_content":"r","content":"hello","tool_calls":[{"id":"x","function":{"name":"bash","arguments":"{\"command\":\"pwd\"}"}},{"function":{}}]},"finish_reason":"tool_calls"}]}"#;
    let resp = parse_openai_response(body).unwrap();
    assert_eq!(resp.stop_reason.as_deref(), Some("tool_use"));
    assert_eq!(resp.content.len(), 4);
    assert!(matches!(&resp.content[0], ContentBlock::Thinking { thinking } if thinking == "r"));
    assert!(matches!(&resp.content[1], ContentBlock::Text { text } if text == "hello"));
    match &resp.content[2] {
        ContentBlock::ToolUse { id, name, input } => {
            assert_eq!(id, "x");
            assert_eq!(name, "bash");
            assert_eq!(input, &json(r#"{"command":"pwd"}"#));
        }
        _ => panic!("expected tool use"),
    }
    match &resp.content[3] {
        ContentBlock::ToolUse { id, name, input } => {
            assert_eq!(id, "");
            assert_eq!(name, "");
            assert_eq!(input, &json("{}"));
        }
        _ => panic!("expected tool use"),
    }
    let stop = parse_openai_response(r#"{"choices":[{"message":{"content":""},"finish_reason":"stop"}]}"#).unwrap();
    assert!(stop.content.is_empty());
    assert_eq!(stop.stop_reason.as_deref(), Some("end_turn"));
}

#[test]
fn openai_response_errors() {
    assert_eq!(parse_openai_response(r#"{"choices":[]}"#).unwrap_err(), "No choices in OpenAI response");
    assert_eq!(parse_openai_response(r#"{"x":1}"#).unwrap_err(), "No choices in OpenAI response");
    let e = parse_openai_response("not json").unwrap_err();
    assert_eq!(e, serde_json::from_str::<Value>("not json").unwrap_err().to_string());
}

#[test]
fn openai_stream_text_reasoning_and_finish() {
    let mut d = OpenAiSseDecoder::new();
    let mut evs = d.feed(": comment\n\ndata: {\"choices\":[{\"delta\":{\"reasoning_content\":\"think\"}}]}\n");
    assert!(evs.is_empty());
    evs = d.feed("data: {\"choices\":[{\"delta\":{\"content\":\"Hel\"}}]}\ndata: {\"choices\":[{\"delta\":{\"content\":\"lo\"}}]}\n");
    assert_eq!(evs.len(), 2);
    assert_eq!(text_of(&evs[0]), Some("Hel"));
    assert_eq!(text_of(&evs[1]), Some("lo"));
    evs = d.feed("data: {\"choices\":[{\"delta\":{},\"finish_reason\":\"stop\"}]}\n");
    assert_eq!(evs.len(), 2);
    assert!(matches!(&evs[0], StreamEvent::BlockComplete(ContentBlock::Thinking { thinking }) if thinking == "think"));
    assert!(matches!(&evs[1], StreamEvent::Done { stop_reason: Some(r) } if r == "stop"));
    assert!(d.done);
    assert!(d.finish().is_empty());
}

#[test]
fn openai_stream_tool_calls() {
    let mut d = OpenAiSseDecoder::new();
    let part1 = "data: {\"choices\":[{\"delta\":{\"tool_calls\":[{\"id\":\"a\",\"function\":{\"name\":\"bash\",\"arguments\":\"{\\\"command\\\"\"}}]}}]}\n";
    let part2 = "data: {\"choices\":[{\"delta\":{\"tool_calls\":[{\"function\":{\"arguments\":\":\\\"ls\\\"}\"}}]}}]}\n";
    assert!(d.feed(part1).is_empty());
    assert!(d.feed(part2).is_empty());
    let evs = d.feed("data: [DONE]\n");
    assert_eq!(evs.len(), 2);
    match &evs[0] {
        StreamEvent::BlockComplete(ContentBlock::ToolUse { id, name, input }) => {
            assert_eq!(id, "a");
            assert_eq!(name, "bash");
            assert_eq!(input, &json(r#"{"command":"ls"}"#));
        }
        _ => panic!("expected tool use"),
    }
    assert!(matches!(evs[1], StreamEvent::Done { stop_reason: None }));
}

#[test]
fn openai_stream_end_flushes_pending_call() {
    let mut d = OpenAiSseDecoder::new();
    let evs = d.feed("data: {\"choices\":[{\"delta\":{\"tool_calls\":[{\"id\":\"a\",\"function\":{\"name\":\"n\",\"arguments\":\"oops\"}}]}}]}\n");
    assert!(evs.is_empty());
    let end = d.finish();
    assert_eq!(end.len(), 1);
    match &end[0] {
        StreamEvent::BlockComplete(ContentBlock::ToolUse { input, .. }) => assert_eq!(input, &json("{}")),
        _ => panic!("expected tool use"),
    }
}

#[test]
fn openai_stream_split_lines() {
    let text = "data: {\"choices\":[{\"delta\":{\"content\":\"x\"}}]}\n";
    let mut d = OpenAiSseDecoder::new();
    assert!(d.feed(&text[..20]).is_empty());
    let evs = d.feed(&text[20..]);
    assert_eq!(evs.len(), 1);
    assert_eq!(text_of(&evs[0]), Some("x"));
}

#[test]
fn decoders_take_bytes_lossily() {
    let mut a = AnthropicSseDecoder::new();
    let bytes = b"event: content_block_delta\ndata: {\"delta\":{\"type\":\"text_delta\",\"text\":\"\xffA\"}}\n\n";
    let evs = a.feed_bytes(bytes);
    assert_eq!(evs.len(), 1);
    assert_eq!(text_of(&evs[0]), Some("\u{fffd}A"));
    let mut o = OpenAiSseDecoder::new();
    let evs = o.feed_bytes("data: {\"choices\":[{\"delta\":{\"content\":\"é\"}}]}\n".as_bytes());
    assert_eq!(evs.len(), 1);
    assert_eq!(text_of(&evs[0]), Some("é"));
}
