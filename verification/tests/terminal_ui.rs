use mash::protocol::{ClientMessage, DaemonMessage, McpServerInfo, SessionInfo, SkillEntry};
use mash::tui::{
    app_message_of, build_commands, compact_lines, wrapped_call_text, extract_quoted_value, file_name_from_path, filter_commands,
    header, highlight_code_spans, highlight_inline_code, input_display, input_width, menu_label,
    parse_mash_agent_command, parse_taskgraph_lines, progress, tool_call_text, try_builtin,
    welcome_session, summary_fits, AppMessage, InputState, Key, StatusState, Transcript, UiAction,
};

fn skills() -> Vec<SkillEntry> {
    vec![SkillEntry { name: "Review".to_string(), description: "review code".to_string() }]
}

#[test]
fn inline_markdown_is_highlighted() {
    assert_eq!(highlight_inline_code("use `ls` now"), "use \x1b[94mls\x1b[0m now");
    assert_eq!(highlight_inline_code("**bold** x"), "\x1b[33mbold\x1b[0m x");
    assert_eq!(highlight_inline_code("a `` b"), "a  b");
    assert_eq!(highlight_inline_code("open `code"), "open `code");
    assert_eq!(highlight_inline_code("open **bold"), "open **bold");
    assert_eq!(highlight_code_spans("**x** `y`"), "**x** \x1b[94my\x1b[0m");
    assert_eq!(highlight_inline_code("plain text"), "plain text");
}

#[test]
fn quoted_values() {
    assert_eq!(extract_quoted_value("x \"a\\\"b\" y", 2), Some(("a\"b".to_string(), 8)));
    assert_eq!(extract_quoted_value("'it'", 0), Some(("it".to_string(), 4)));
    assert_eq!(extract_quoted_value("\"open", 0), None);
    assert_eq!(extract_quoted_value("abc", 0), None);
    assert_eq!(extract_quoted_value("abc", 9), None);
}

#[test]
fn mash_agent_commands() {
    assert_eq!(
        parse_mash_agent_command("cd x && mash agent  \"do it\" --system 'be brief'"),
        Some(("do it".to_string(), Some("be brief".to_string())))
    );
    assert_eq!(parse_mash_agent_command("mash agent \"hi\""), Some(("hi".to_string(), None)));
    assert_eq!(parse_mash_agent_command("mash agent hi"), None);
    assert_eq!(parse_mash_agent_command("ls"), None);
}

#[test]
fn tool_call_lines() {
    assert_eq!(file_name_from_path("/a/b/c.rs"), "c.rs");
    assert_eq!(file_name_from_path("/"), "/");
    assert_eq!(tool_call_text("write", "/a/b.txt"), "\x1b[32m⏺ Write(b.txt)\x1b[0m");
    assert_eq!(tool_call_text("read", "x/y.md"), "\x1b[32m⏺ Read(y.md)\x1b[0m");
    assert_eq!(tool_call_text("edit", "f"), "\x1b[32m⏺ Edit(f)\x1b[0m");
    assert_eq!(tool_call_text("bash", ""), "\x1b[32m⏺ Bash()\x1b[0m");
    assert_eq!(tool_call_text("bash", "ls"), "\x1b[32m⏺ Bash(ls)\x1b[0m");
    assert_eq!(
        tool_call_text("bash", "mash agent \"u\" --system \"s\""),
        "\x1b[32m⏺ Agent(user=u, system=s)\x1b[0m"
    );
    assert_eq!(tool_call_text("bash", "mash agent \"u\""), "\x1b[32m⏺ Agent(user=u)\x1b[0m");
    assert_eq!(tool_call_text("mcp", ""), "\x1b[32m⏺ mcp()\x1b[0m");
    assert_eq!(tool_call_text("mcp", "q"), "\x1b[32m⏺ mcp(q)\x1b[0m");
}

#[test]
fn transcript_hides_results_of_file_tools() {
    let mut t = Transcript::new();
    let lines = t.render(&AppMessage::ToolCall { name: "read".to_string(), description: "f".to_string() });
    assert_eq!(lines, vec!["\x1b[32m⏺ Read(f)\x1b[0m".to_string()]);
    assert!(t.render(&AppMessage::ToolResult { preview: "x".to_string() }).is_empty());
    t.render(&AppMessage::ToolCall { name: "bash".to_string(), description: "ls".to_string() });
    assert_eq!(t.render(&AppMessage::ToolResult { preview: "x".to_string() }), vec!["\x1b[33m✓ x\x1b[0m".to_string()]);
    assert_eq!(t.render(&AppMessage::UserMessage("hi".to_string())), vec!["\x1b[36m▶ hi\x1b[0m".to_string()]);
    assert_eq!(t.render(&AppMessage::AgentError("e".to_string())), vec!["\x1b[31mError: e\x1b[0m".to_string()]);
    assert_eq!(t.render(&AppMessage::AgentCompleted), vec![String::new()]);
    assert_eq!(
        t.render(&AppMessage::PeerMessage { from: "s".to_string(), text: "t".to_string() }),
        vec!["\x1b[35m◀ [s] t\x1b[0m".to_string()]
    );
    assert!(t.render(&AppMessage::AgentTaskStarted).is_empty());
}

#[test]
fn transcript_lists_sessions_and_servers() {
    let mut t = Transcript::new();
    let lines = t.render(&AppMessage::SessionList(vec![SessionInfo { id: "a".to_string(), busy: false }]));
    assert_eq!(
        lines,
        vec!["\x1b[1mActive sessions:\x1b[0m".to_string(), "  \x1b[33ma\x1b[0m  idle".to_string(), String::new()]
    );
    let lines = t.render(&AppMessage::McpList(vec![]));
    assert_eq!(lines, vec!["\x1b[1mNo MCP servers connected.\x1b[0m".to_string(), String::new()]);
    let lines = t.render(&AppMessage::McpList(vec![McpServerInfo {
        name: "git".to_string(),
        tools: vec!["log".to_string(), "diff".to_string()],
    }]));
    assert_eq!(
        lines,
        vec![
            "\x1b[1mMCP servers:\x1b[0m".to_string(),
            "  \x1b[33mgit\x1b[0m (2 tools)".to_string(),
            "    - log".to_string(),
            "    - diff".to_string(),
            String::new(),
        ]
    );
}

#[test]
fn daemon_messages_map_to_app_messages() {
    assert!(matches!(app_message_of(DaemonMessage::AgentStarted), Some(AppMessage::AgentTaskStarted)));
    assert!(matches!(app_message_of(DaemonMessage::Text { line: "l".to_string() }), Some(AppMessage::AssistantLine(l)) if l == "l"));
    assert!(app_message_of(DaemonMessage::McpResult { result: "r".to_string() }).is_none());
}

#[test]
fn welcome_checks_the_protocol_version() {
    let w = DaemonMessage::Welcome { version: 7, session_id: "abcd".to_string(), skills: skills(), busy: true };
    let (sid, sk, busy) = welcome_session(w, 7, 1).ok().unwrap();
    assert_eq!(sid, "abcd");
    assert_eq!(sk.len(), 1);
    assert!(busy);
    let w = DaemonMessage::Welcome { version: 8, session_id: String::new(), skills: vec![], busy: false };
    let e = welcome_session(w, 7, 1).err().unwrap();
    assert_eq!(e.message(), "protocol mismatch: daemon=8, client=7");
    let w = DaemonMessage::Welcome { version: 7, session_id: String::new(), skills: vec![], busy: false };
    assert_eq!(welcome_session(w, 7, 0x1f).ok().unwrap().0, "0000001f");
}

#[test]
fn header_and_input_layout() {
    assert_eq!(header("s1")[0], "\x1b[1;34mmash\x1b[0m  \x1b[2msession s1\x1b[0m");
    assert_eq!(input_display(""), "│");
    assert_eq!(input_display("ab"), "ab│");
    assert_eq!(input_width(80), 76);
    assert_eq!(input_width(5), 76);
    assert_eq!(menu_label("new", "desc", 80), " /new  desc");
    assert_eq!(menu_label("new", "desc", 12), " /ne…");
    assert_eq!(menu_label("new", "描述", 17), " /new  …");
}

#[test]
fn slash_menu_commands() {
    let cmds = build_commands(&skills());
    assert_eq!(cmds.len(), 4);
    assert_eq!(cmds[0].name, "new");
    assert!(!cmds[3].builtin);
    assert_eq!(filter_commands(&cmds, "").len(), 4);
    let f = filter_commands(&cmds, "REV");
    assert_eq!(f.len(), 1);
    assert_eq!(f[0].name, "Review");
    assert_eq!(filter_commands(&cmds, "s").len(), 2);
}

#[test]
fn builtin_commands() {
    assert!(matches!(try_builtin(" /new "), Some((l, ClientMessage::ClearHistory)) if l == "/new"));
    assert!(matches!(try_builtin("/sessions"), Some((_, ClientMessage::ListSessions))));
    match try_builtin("/msg  ab12  hello there ") {
        Some((line, ClientMessage::SendToSession { target, text, from })) => {
            assert_eq!(line, "/msg ab12 hello there");
            assert_eq!(target, "ab12");
            assert_eq!(text, "hello there");
            assert!(from.is_none());
        }
        _ => panic!("expected a message"),
    }
    assert!(try_builtin("/msg ab12").is_none());
    assert!(try_builtin("hello").is_none());
}

fn sent_text(actions: &[UiAction]) -> Option<String> {
    actions.iter().find_map(|a| match a {
        UiAction::Send(ClientMessage::SendMessage { text, .. }) => Some(text.clone()),
        _ => None,
    })
}

#[test]
fn typing_and_submitting() {
    let cmds = build_commands(&skills());
    let mut s = InputState::new();
    for c in "hi".chars() {
        assert!(s.on_key(Key::Char(c), &cmds).is_empty());
    }
    s.on_key(Key::Enter { shift: true }, &cmds);
    assert_eq!(s.buf, "hi\n");
    s.on_key(Key::Char('x'), &cmds);
    s.on_key(Key::Backspace, &cmds);
    let acts = s.on_key(Key::Enter { shift: false }, &cmds);
    assert_eq!(sent_text(&acts), Some("hi".to_string()));
    assert!(matches!(&acts[0], UiAction::Show(AppMessage::UserMessage(t)) if t == "hi"));
    assert_eq!(s.buf, "");
    assert!(s.on_key(Key::Enter { shift: false }, &cmds).is_empty());
}

#[test]
fn choosing_from_the_slash_menu() {
    let cmds = build_commands(&skills());
    let mut s = InputState::new();
    s.on_key(Key::Char('/'), &cmds);
    s.on_key(Key::Down, &cmds);
    s.on_key(Key::Down, &cmds);
    assert_eq!(s.menu_index, 2);
    s.on_key(Key::Up, &cmds);
    assert_eq!(s.menu_index, 1);
    let acts = s.on_key(Key::Enter { shift: false }, &cmds);
    assert!(matches!(&acts[1], UiAction::Send(ClientMessage::ListSessions)));
    assert_eq!(s.buf, "");

    for c in "/m".chars() {
        s.on_key(Key::Char(c), &cmds);
    }
    s.on_key(Key::Tab, &cmds);
    assert_eq!(s.buf, "/msg");
    assert!(s.on_key(Key::Enter { shift: false }, &cmds).is_empty());
    assert_eq!(s.buf, "/msg ");

    let mut s = InputState::new();
    for c in "/rev".chars() {
        s.on_key(Key::Char(c), &cmds);
    }
    let acts = s.on_key(Key::Enter { shift: false }, &cmds);
    assert_eq!(sent_text(&acts), Some("/Review".to_string()));

    let mut s = InputState::new();
    s.on_key(Key::Char('/'), &cmds);
    s.on_key(Key::Esc, &cmds);
    assert_eq!(s.buf, "");
}

#[test]
fn task_lines_and_progress() {
    let content = "{\"id\":\"t1\",\"desc\":\"write code\",\"type\":\"inline\",\"done\":true}\n\n{\"id\":\"t2\",\"desc\":\"review\",\"type\":\"subagent\",\"status\":\"pending\"}\n{\"id\":\"t3\",\"desc\":\"x\",\"type\":\"other\"}";
    let lines = parse_taskgraph_lines(content).unwrap();
    assert_eq!(
        lines,
        vec![
            ("1 [inline] write code (t1)".to_string(), true),
            ("2 [subagent] review (t2)".to_string(), false),
        ]
    );
    assert!(parse_taskgraph_lines("- [ ] plain").is_none());
    assert_eq!(progress(Some((1, 4))), " ┃ 📋 1/4 [██░░░░░░░░]");
    assert_eq!(progress(Some((0, 0))), " ┃ 📋 0/0 [░░░░░░░░░░]");
    assert_eq!(progress(None), "");
}

#[test]
fn status_line_follows_the_agent() {
    let mut st = StatusState::new();
    assert!(st.text().is_none());
    st.on_message(&AppMessage::AgentTaskStarted);
    st.on_second();
    st.on_second();
    assert_eq!(st.text().unwrap(), "⠹ 思考中… (2s · esc 中断)");
    st.on_message(&AppMessage::TasksUpdated { done: 2, total: 2 });
    st.on_message(&AppMessage::AgentCompleted);
    st.on_second();
    assert_eq!(st.elapsed, 0);
    assert_eq!(st.text().unwrap(), "📋 任务进度 ┃ 📋 2/2 [██████████]");
    st.on_message(&AppMessage::TaskContent("  # Tasks\n- [ ] a  ".to_string()));
    assert_eq!(st.body(), vec![("# Tasks\n- [ ] a".to_string(), true)]);
}

#[test]
fn compact_tool_calls_fit_the_terminal() {
    assert_eq!(wrapped_call_text("bash", "", 80), "\x1b[32m⏺ Bash()\x1b[0m");
    assert_eq!(
        wrapped_call_text("bash", "echo hi\nls -la", 20),
        "\x1b[32m⏺ Bash(echo hi\n\x1b[32m       ls -la)\x1b[0m"
    );
    assert_eq!(
        wrapped_call_text("bash", "echo hi\nls -la", 10),
        "\x1b[32m⏺ Bash(e…\n\x1b[32m       l…)\x1b[0m"
    );
    assert_eq!(wrapped_call_text("bash", "echo hi", 5), "\x1b[32m⏺ Bash(…)\x1b[0m");
    assert_eq!(wrapped_call_text("read", "/a/b.txt", 80), "\x1b[32m⏺ read(/a/b.txt)\x1b[0m");
}

#[test]
fn compact_transcript_shows_every_result() {
    assert_eq!(
        compact_lines(&AppMessage::AssistantLine("**x** `y`".to_string()), 80),
        vec!["**x** \x1b[94my\x1b[0m".to_string()]
    );
    assert_eq!(
        compact_lines(&AppMessage::ToolResult { preview: "ok".to_string() }, 80),
        vec!["\x1b[33m✓ ok\x1b[0m".to_string()]
    );
    assert_eq!(compact_lines(&AppMessage::McpList(Vec::new()), 80), Vec::<String>::new());
    assert_eq!(
        compact_lines(&AppMessage::UserMessage("hi".to_string()), 80),
        vec!["\x1b[36m▶ hi\x1b[0m".to_string()]
    );
    assert_eq!(
        compact_lines(&AppMessage::ToolCall { name: "edit".to_string(), description: "src/a.rs".to_string() }, 40),
        vec!["\x1b[32m⏺ edit(src/a.rs)\x1b[0m".to_string()]
    );
}

#[test]
fn summaries_the_progress_bar_can_show() {
    assert!(summary_fits(None));
    assert!(summary_fits(Some((2, 5))));
    assert!(!summary_fits(Some((6, 5))));
    assert!(!summary_fits(Some((usize::MAX, usize::MAX))));
}
