use mash::agent::{summarize_result, unknown_tool, AgentEvent, AgentLoop, StreamTurn, ToolResult};
use mash::llm::{ContentBlock, LlmResponse, Message, MessageContent, Role, StreamEvent};
use serde_json::Value;

fn json(text: &str) -> Value {
    serde_json::from_str(text).unwrap()
}

fn new_loop() -> AgentLoop {
    AgentLoop::new(
        "sys".to_string(),
        "model".to_string(),
        100,
        vec![Message { role: Role::User, content: MessageContent::Text("hi".to_string()) }],
        vec!["read".to_string(), "bash".to_string()],
        vec![json(r#"{"name":"read"}"#), json(r#"{"name":"bash"}"#)],
    )
}

fn kinds(evs: &[AgentEvent]) -> Vec<&'static str> {
    evs.iter()
        .map(|e| match e {
            AgentEvent::AgentStart => "start",
            AgentEvent::TurnStart => "turn",
            AgentEvent::TextDelta(_) => "delta",
            AgentEvent::ThinkingDelta(_) => "thinking",
            AgentEvent::Text(_) => "text",
            AgentEvent::ToolCallStart { .. } => "call",
            AgentEvent::ToolCallEnd { .. } => "end",
            AgentEvent::TurnEnd => "turn_end",
            AgentEvent::AgentEnd => "agent_end",
            AgentEvent::Error(_) => "error",
        })
        .collect()
}

#[test]
fn first_turn_starts_the_loop_and_builds_the_request() {
    let mut a = new_loop();
    let (evs, req) = a.begin_turn(false);
    assert_eq!(kinds(&evs), vec!["start", "turn"]);
    let req = req.unwrap();
    assert_eq!(req.model, "model");
    assert_eq!(req.system, "sys");
    assert_eq!(req.max_tokens, 100);
    assert_eq!(req.messages.len(), 1);
    assert_eq!(req.tools.len(), 2);
    let (evs, _) = a.begin_turn(false);
    assert_eq!(kinds(&evs), vec!["turn"]);
}

#[test]
fn abort_ends_the_loop() {
    let mut a = new_loop();
    let (evs, req) = a.begin_turn(true);
    assert_eq!(kinds(&evs), vec!["start", "error", "agent_end"]);
    assert!(matches!(&evs[1], AgentEvent::Error(m) if m == "aborted"));
    assert!(req.is_none());
    assert!(a.finished);
    let (evs, req) = a.begin_turn(false);
    assert!(evs.is_empty());
    assert!(req.is_none());
}

#[test]
fn model_failure_ends_the_loop() {
    let mut a = new_loop();
    a.begin_turn(false);
    let evs = a.llm_failed("timeout".to_string());
    assert_eq!(kinds(&evs), vec!["error", "agent_end"]);
    assert!(a.finished);
}

#[test]
fn answer_without_tools_ends_the_loop() {
    let mut a = new_loop();
    a.begin_turn(false);
    let evs = a.take_response(LlmResponse {
        content: vec![
            ContentBlock::Thinking { thinking: "t".to_string() },
            ContentBlock::Text { text: String::new() },
            ContentBlock::Text { text: "done".to_string() },
        ],
        stop_reason: None,
    });
    assert_eq!(kinds(&evs), vec!["thinking", "text", "turn_end", "agent_end"]);
    assert!(a.finished);
    assert_eq!(a.messages.len(), 2);
    assert_eq!(a.messages[1].role, Role::Assistant);
}

#[test]
fn tool_calls_are_answered_in_order() {
    let mut a = new_loop();
    a.begin_turn(false);
    let evs = a.take_response(LlmResponse {
        content: vec![
            ContentBlock::ToolUse { id: "1".to_string(), name: "bash".to_string(), input: json(r#"{"command":"ls"}"#) },
            ContentBlock::ToolUse { id: "2".to_string(), name: "nope".to_string(), input: json("{}") },
        ],
        stop_reason: None,
    });
    assert!(evs.is_empty());
    assert!(!a.finished);

    let start = a.next_call().unwrap();
    match &start {
        AgentEvent::ToolCallStart { id, name, input } => {
            assert_eq!(id, "1");
            assert_eq!(name, "bash");
            assert_eq!(input, &json(r#"{"command":"ls"}"#));
        }
        _ => panic!("expected a call"),
    }
    assert_eq!(a.tool_index("bash"), Some(1));
    let end = a.record_result(ToolResult { content: "a\nb".to_string(), is_error: false }).unwrap();
    assert!(matches!(&end, AgentEvent::ToolCallEnd { id, result, is_error: false, .. } if id == "1" && result == "a"));

    match a.next_call().unwrap() {
        AgentEvent::ToolCallStart { name, .. } => {
            assert_eq!(a.tool_index(&name), None);
            let r = unknown_tool(&name);
            assert_eq!(r.content, "Unknown tool: nope");
            assert!(r.is_error);
            let end = a.record_result(r).unwrap();
            assert!(matches!(&end, AgentEvent::ToolCallEnd { id, is_error: true, .. } if id == "2"));
        }
        _ => panic!("expected a call"),
    }
    assert!(a.next_call().is_none());
    assert!(a.record_result(ToolResult { content: String::new(), is_error: false }).is_none());

    let evs = a.end_tools();
    assert_eq!(kinds(&evs), vec!["turn_end"]);
    assert_eq!(a.messages.len(), 3);
    match &a.messages[2].content {
        MessageContent::Blocks(bs) => {
            assert_eq!(bs.len(), 2);
            assert!(matches!(&bs[0], ContentBlock::ToolResult { tool_use_id, is_error: None, .. } if tool_use_id == "1"));
            assert!(matches!(&bs[1], ContentBlock::ToolResult { tool_use_id, is_error: Some(true), .. } if tool_use_id == "2"));
        }
        _ => panic!("expected blocks"),
    }
    assert_eq!(a.messages[2].role, Role::User);
    let (evs, req) = a.begin_turn(false);
    assert_eq!(kinds(&evs), vec!["turn"]);
    assert_eq!(req.unwrap().messages.len(), 3);
}

#[test]
fn results_are_summarized_by_first_line() {
    assert_eq!(summarize_result("one\ntwo"), "one");
    assert_eq!(summarize_result(""), "(empty)");
}

#[test]
fn streamed_turn_collects_text_and_calls() {
    let mut t = StreamTurn::new();
    assert_eq!(kinds(&t.on_event(StreamEvent::TextDelta("Hel".to_string()))), vec!["delta"]);
    t.on_event(StreamEvent::TextDelta("lo".to_string()));
    assert_eq!(
        kinds(&t.on_event(StreamEvent::BlockComplete(ContentBlock::Thinking { thinking: "t".to_string() }))),
        vec!["thinking"]
    );
    t.on_event(StreamEvent::BlockComplete(ContentBlock::ToolUse {
        id: "c".to_string(),
        name: "bash".to_string(),
        input: json("{}"),
    }));
    t.on_event(StreamEvent::Done { stop_reason: None });
    assert!(t.closed);
    assert!(t.on_event(StreamEvent::TextDelta("x".to_string())).is_empty());
    assert_eq!(t.full_text, "Hello");
    assert_eq!(t.blocks.len(), 3);
    assert!(matches!(&t.blocks[0], ContentBlock::Text { text } if text == "Hello"));

    let mut a = new_loop();
    a.begin_turn(false);
    let evs = a.take_stream_turn(t);
    assert_eq!(kinds(&evs), vec!["text"]);
    assert!(!a.finished);
    assert_eq!(a.calls.len(), 1);
}

#[test]
fn streamed_error_closes_the_turn() {
    let mut t = StreamTurn::new();
    t.on_event(StreamEvent::TextDelta("partial".to_string()));
    let evs = t.on_event(StreamEvent::Error("net".to_string()));
    assert!(matches!(&evs[0], AgentEvent::Error(e) if e == "net"));
    assert!(t.closed);
    let mut a = new_loop();
    a.begin_turn(false);
    let evs = a.take_stream_turn(t);
    assert_eq!(kinds(&evs), vec!["text", "turn_end", "agent_end"]);
    match &a.messages[1].content {
        MessageContent::Blocks(bs) => {
            assert_eq!(bs.len(), 1);
            assert!(matches!(&bs[0], ContentBlock::Text { text } if text == "partial"));
        }
        _ => panic!("expected blocks"),
    }
}

#[test]
fn streamed_error_after_a_tool_call_ends_the_loop() {
    let mut t = StreamTurn::new();
    t.on_event(StreamEvent::BlockComplete(ContentBlock::ToolUse {
        id: "c1".to_string(),
        name: "bash".to_string(),
        input: json("{}"),
    }));
    let evs = t.on_event(StreamEvent::Error("boom".to_string()));
    assert!(matches!(&evs[0], AgentEvent::Error(e) if e == "boom"));
    assert!(t.failed);
    let mut a = new_loop();
    a.begin_turn(false);
    let evs = a.take_stream_turn(t);
    assert_eq!(kinds(&evs), vec!["turn_end", "agent_end"]);
    assert!(a.finished);
    assert!(a.calls.is_empty());
    assert!(a.next_call().is_none());
    let (evs, req) = a.begin_turn(false);
    assert!(evs.is_empty());
    assert!(req.is_none());
    match &a.messages[1].content {
        MessageContent::Blocks(bs) => assert!(bs.is_empty()),
        _ => panic!("expected blocks"),
    }
}
