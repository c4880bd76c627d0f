use mash::agent::AgentEvent as CoreEvent;
use mash::cli::{mcp_call_arguments, message_sent, sessions_report, AgentRun, RunStep};
use mash::daemon::{
    adapt_event, daemon_message, ends_run, generate_session_id, mcp_reply, mcp_tool_name,
    peer_context_message, session_list, session_not_found, session_system, task_poll,
    tool_call_description, AgentConfig, AgentEvent, SessionState,
};
use mash::protocol::{DaemonMessage, SessionInfo};
use mash::shell::{shell_output, BashTool as ShellTool};
use mash::tool_defs::{BashTool, EditTool, ReadTool, WriteTool};
use serde_json::Value;

fn json(text: &str) -> Value {
    serde_json::from_str(text).unwrap()
}

#[test]
fn bash_calls_are_described_by_their_command() {
    assert_eq!(tool_call_description("bash", &json(r#"{"command":"ls -la"}"#)), "ls -la");
    assert_eq!(tool_call_description("bash", &json(r#"{}"#)), "");
    assert_eq!(tool_call_description("read", &json(r#"{"command":"x"}"#)), "");
}

#[test]
fn agent_events_become_session_events() {
    let (evs, sent) = adapt_event(&CoreEvent::Text("a\nb".to_string()));
    assert!(sent);
    assert_eq!(evs.len(), 2);
    assert!(matches!(&evs[1], AgentEvent::Text(l) if l == "b"));
    let (evs, _) = adapt_event(&CoreEvent::ToolCallStart {
        id: "1".to_string(),
        name: "bash".to_string(),
        input: json(r#"{"command":"pwd"}"#),
    });
    assert!(matches!(&evs[0], AgentEvent::ToolCall { name, description } if name == "bash" && description == "pwd"));
    let (evs, _) = adapt_event(&CoreEvent::ToolCallEnd {
        id: "1".to_string(),
        name: "bash".to_string(),
        result: "".to_string(),
        is_error: false,
    });
    assert!(matches!(&evs[0], AgentEvent::ToolResult { preview } if preview == "(empty)"));
    let (evs, _) = adapt_event(&CoreEvent::Error("bad".to_string()));
    assert!(matches!(&evs[0], AgentEvent::Text(l) if l == "[Error] bad"));
    let (evs, sent) = adapt_event(&CoreEvent::TurnEnd);
    assert!(evs.is_empty());
    assert!(!sent);
    assert!(ends_run(&CoreEvent::AgentEnd));
    assert!(ends_run(&CoreEvent::Error("x".to_string())));
    assert!(!ends_run(&CoreEvent::TurnStart));
}

#[test]
fn session_events_become_daemon_messages() {
    let m = daemon_message(AgentEvent::TasksUpdated { done: 1, total: 3 });
    assert!(matches!(m, DaemonMessage::TasksUpdated { done: 1, total: 3 }));
    let m = daemon_message(AgentEvent::Text("x".to_string()));
    assert!(matches!(m, DaemonMessage::Text { line } if line == "x"));
}

#[test]
fn session_ids_are_eight_hex_digits() {
    let ts: u128 = 0x0001_2345_6789;
    let pid: u32 = 0x0000_00ff;
    assert_eq!(generate_session_id(ts, pid), format!("{:04x}{:04x}", (ts >> 16) as u16, (ts & 0xFFFF) as u16 ^ pid as u16));
    assert_eq!(generate_session_id(0, 0), "00000000");
}

#[test]
fn peer_messages_and_errors() {
    assert_eq!(
        peer_context_message("ab12", "hello"),
        "[来自 session ab12 的消息]\nhello\n\n（使用 bash 执行 `mash msg ab12 \"你的回复\"` 回复该 session）"
    );
    assert!(matches!(session_not_found("zz"), DaemonMessage::AgentError { message } if message == "session 'zz' not found"));
    assert_eq!(mcp_tool_name("git", "log"), "mcp__git__log");
    assert!(matches!(mcp_reply(Ok("out".to_string())), DaemonMessage::McpResult { result } if result == "out"));
    assert!(matches!(mcp_reply(Err("boom".to_string())), DaemonMessage::McpResult { result } if result == "Error: boom"));
    assert_eq!(session_system("base", Some("extra")), "base\n\nextra");
    assert_eq!(session_system("base", None), "base");
}

#[test]
fn busy_sessions_queue_messages() {
    let mut s = SessionState::new("s1".to_string());
    assert_eq!(s.send_message("first".to_string(), Some("x".to_string())), Some("first".to_string()));
    assert!(s.busy);
    assert_eq!(s.send_message("second".to_string(), None), None);
    assert_eq!(s.pending_user_messages, vec!["second".to_string()]);
    assert_eq!(s.system_extra.as_deref(), Some("x"));
    let note = s.receive_peer("s2", "hey");
    assert!(matches!(note, DaemonMessage::PeerMessage { from, text } if from == "s2" && text == "hey"));
    assert_eq!(s.pending_user_messages.len(), 2);
    assert!(matches!(s.finish_run(Ok(())), DaemonMessage::AgentCompleted));
    assert!(!s.busy);
    assert!(matches!(s.finish_run(Err("e".to_string())), DaemonMessage::AgentError { message } if message == "e"));
}

#[test]
fn headless_sessions_are_not_listed() {
    let mut a = SessionState::new("a".to_string());
    let mut b = SessionState::new("b".to_string());
    a.init("/w".to_string(), false);
    b.init("/w".to_string(), true);
    a.send_message("go".to_string(), None);
    match session_list(&vec![a, b]) {
        DaemonMessage::SessionList { sessions } => {
            assert_eq!(sessions.len(), 1);
            assert_eq!(sessions[0].id, "a");
            assert!(sessions[0].busy);
        }
        _ => panic!("expected a list"),
    }
}

#[test]
fn task_files_are_polled() {
    let msgs = task_poll("# Tasks\n- [x] a\n- [ ] b\n");
    assert_eq!(msgs.len(), 2);
    assert!(matches!(msgs[0], DaemonMessage::TasksUpdated { done: 1, total: 2 }));
    assert!(matches!(&msgs[1], DaemonMessage::TaskContent { content } if content.starts_with("# Tasks")));
    assert!(task_poll("nothing here").is_empty());
}

#[test]
fn agent_config_for_a_session() {
    let c = AgentConfig { system: "base".to_string(), model: "m".to_string(), max_tokens: 9 };
    let s = c.for_session(Some("more"));
    assert_eq!(s.system, "base\n\nmore");
    assert_eq!(s.model, "m");
    assert_eq!(s.max_tokens, 9);
}

#[test]
fn headless_agent_run_collects_last_round() {
    let mut run = AgentRun::new();
    assert!(matches!(run.on_message(DaemonMessage::Text { line: "old".to_string() }), RunStep::Continue));
    run.on_message(DaemonMessage::ToolCall { name: "bash".to_string(), description: String::new() });
    run.on_message(DaemonMessage::Text { line: "a".to_string() });
    run.on_message(DaemonMessage::Text { line: "b".to_string() });
    assert!(matches!(run.on_message(DaemonMessage::AgentCompleted), RunStep::Finished(t) if t == "a\nb"));
    assert_eq!(run.output, vec!["a".to_string(), "b".to_string()]);
    let mut failing = AgentRun::new();
    assert!(matches!(
        failing.on_message(DaemonMessage::AgentError { message: "oops".to_string() }),
        RunStep::Failed(e) if e == "Agent error: oops"
    ));
    assert!(failing.output.is_empty());
}

#[test]
fn cli_texts() {
    assert_eq!(sessions_report(&vec![]), vec!["No active sessions.".to_string()]);
    let list = vec![SessionInfo { id: "a".to_string(), busy: true }, SessionInfo { id: "b".to_string(), busy: false }];
    assert_eq!(
        sessions_report(&list),
        vec!["Active sessions:\n".to_string(), "  a  [busy]".to_string(), "  b  [idle]".to_string()]
    );
    assert_eq!(message_sent("ab"), "Message sent to session ab.");
    assert_eq!(mcp_call_arguments(r#"{"a":1}"#).unwrap(), json(r#"{"a":1}"#));
    let err = mcp_call_arguments("{").unwrap_err();
    assert!(err.starts_with("Invalid JSON arguments: "));
}

#[test]
fn shell_output_composition() {
    assert_eq!(shell_output("out", "", true, Some(0)), "out");
    assert_eq!(shell_output("out", "err", true, Some(0)), "out\n[stderr]\nerr");
    assert_eq!(shell_output("", "err", false, Some(3)), "[stderr]\nerr\n[exit code: 3]");
    assert_eq!(shell_output("", "", false, None), "\n[exit code: -1]");
}

#[test]
fn tool_definitions() {
    let r = ReadTool::new("/w".to_string());
    assert_eq!(r.name(), "read");
    let d = r.definition();
    assert_eq!(d["name"], "read");
    assert_eq!(d["input_schema"]["required"], json(r#"["path"]"#));
    assert_eq!(d["input_schema"]["properties"]["offset"]["type"], "integer");
    let w = WriteTool::new("/w".to_string());
    assert_eq!(w.name(), "write");
    assert_eq!(w.definition()["input_schema"]["required"], json(r#"["path","content"]"#));
    let e = EditTool::new("/w".to_string());
    assert_eq!(e.name(), "edit");
    let ed = e.definition();
    assert_eq!(ed["input_schema"]["additionalProperties"], false);
    assert_eq!(ed["input_schema"]["properties"]["edits"]["items"]["required"], json(r#"["oldText","newText"]"#));
    assert_eq!(ed["input_schema"]["properties"]["path"], json(r#"{"type":"string"}"#));
    let b = BashTool::new("/w".to_string());
    assert_eq!(b.name(), "bash");
    assert_eq!(b.definition()["input_schema"]["properties"]["timeout"]["type"], "integer");
    let s = ShellTool;
    assert_eq!(s.name(), "bash");
    assert_eq!(
        s.definition()["input_schema"]["properties"]["timeout"]["description"],
        "Timeout in seconds. Default 120."
    );
}
