//! The daemon's decisions: how agent events become messages for clients, how
//! a session reacts to client requests, and the texts it sends.
use vstd::prelude::*;
use crate::agent::{result_summary, AgentEvent as CoreAgentEvent, AgentEventView};
use crate::json::{as_str, json_as_str, json_index, json_tree, obj_index, JsonTree};
use crate::openai::or_text;
use crate::protocol::{DaemonMessage, SessionInfo};
use crate::tasks::{read_task_summary, slice_eq, task_summary};
use crate::text::{chars_of, contains, contains_chars, lines, lines_of, push_str, string_of};

verus! {

/// What a session's agent run reports to its clients.
#[derive(Debug)]
pub enum AgentEvent {
    Text(String),
    ToolCall { name: String, description: String },
    ToolResult { preview: String },
    TasksUpdated { done: usize, total: usize },
}

/// The content of a session event.
pub ghost enum SessionEventView {
    Text(Seq<char>),
    ToolCall(Seq<char>, Seq<char>),
    ToolResult(Seq<char>),
    TasksUpdated(nat, nat),
}

impl View for AgentEvent {
    type V = SessionEventView;

    open spec fn view(&self) -> SessionEventView {
        match self {
            AgentEvent::Text(t) => SessionEventView::Text(t@),
            AgentEvent::ToolCall { name, description } => SessionEventView::ToolCall(
                name@,
                description@,
            ),
            AgentEvent::ToolResult { preview } => SessionEventView::ToolResult(preview@),
            AgentEvent::TasksUpdated { done, total } => SessionEventView::TasksUpdated(
                *done as nat,
                *total as nat,
            ),
        }
    }
}

/// Views of a list of session events.
pub open spec fn session_events_view(v: Seq<AgentEvent>) -> Seq<SessionEventView> {
    v.map_values(|e: AgentEvent| e@)
}

/// The short description shown for a tool call: the command of a `bash`
/// call, and nothing for other tools.
pub open spec fn call_description(name: Seq<char>, input: JsonTree) -> Seq<char> {
    if name == "bash"@ {
        or_text(as_str(obj_index(input, "command"@)), Seq::empty())
    } else {
        Seq::empty()
    }
}

/// The short description shown for a tool call.
pub fn tool_call_description(name: &str, input: &serde_json::Value) -> (r: String)
    ensures
        r@ == call_description(name@, json_tree(*input)),
{
    let nc = chars_of(name);
    let bash = chars_of("bash");
    proof {
        reveal_strlit("bash");
    }
    if slice_eq(nc.as_slice(), bash.as_slice()) {
        match json_as_str(json_index(input, "command")) {
            Some(c) => c.to_owned(),
            None => String::new(),
        }
    } else {
        String::new()
    }
}

/// The session events for an agent event, and whether any is sent: deltas as
/// they come, whole texts line by line, tool calls with their description,
/// tool ends with the first line of their result, and errors as text.
pub open spec fn adapted(ev: AgentEventView) -> (Seq<SessionEventView>, bool) {
    match ev {
        AgentEventView::TextDelta(t) => (seq![SessionEventView::Text(t)], true),
        AgentEventView::Text(t) => (
            lines_of(t).map_values(|l: Seq<char>| SessionEventView::Text(l)),
            true,
        ),
        AgentEventView::ToolCallStart(_, name, input) => (
            seq![SessionEventView::ToolCall(name, call_description(name, input))],
            true,
        ),
        AgentEventView::ToolCallEnd(_, _, result, _) => (
            seq![SessionEventView::ToolResult(result_summary(result))],
            true,
        ),
        AgentEventView::Error(e) => (seq![SessionEventView::Text("[Error] "@ + e)], true),
        _ => (Seq::empty(), false),
    }
}

/// Turns an agent event into the session events its clients see.
pub fn adapt_event(ev: &CoreAgentEvent) -> (r: (Vec<AgentEvent>, bool))
    ensures
        (session_events_view(r.0@), r.1) == adapted(ev@),
{
    let mut out: Vec<AgentEvent> = Vec::new();
    match ev {
        CoreAgentEvent::TextDelta(t) => {
            let e = AgentEvent::Text(t.clone());
            out.push(e);
            proof {
                assert(session_events_view(out@) =~= seq![e@]);
            }
            (out, true)
        },
        CoreAgentEvent::Text(t) => {
            let cs = chars_of(t.as_str());
            let ls = lines(cs.as_slice());
            let ghost lv = lines_of(t@);
            let mut i: usize = 0;
            proof {
                assert(session_events_view(out@) =~= lv.take(0).map_values(
                    |l: Seq<char>| SessionEventView::Text(l),
                ));
            }
            while i < ls.len()
                invariant
                    i <= ls@.len(),
                    ls@.len() == lv.len(),
                    forall|j: int| 0 <= j < ls@.len() ==> #[trigger] ls@[j]@ == lv[j],
                    session_events_view(out@) == lv.take(i as int).map_values(
                        |l: Seq<char>| SessionEventView::Text(l),
                    ),
                decreases ls@.len() - i,
            {
                let e = AgentEvent::Text(string_of(ls[i].as_slice()));
                let ghost before = out@;
                out.push(e);
                proof {
                    assert(session_events_view(out@) =~= session_events_view(before).push(e@));
                    assert(lv.take(i + 1).map_values(|l: Seq<char>| SessionEventView::Text(l))
                        =~= lv.take(i as int).map_values(|l: Seq<char>| SessionEventView::Text(l)).push(
                        SessionEventView::Text(lv[i as int]),
                    ));
                }
                i = i + 1;
            }
            proof {
                assert(lv.take(i as int) =~= lv);
            }
            (out, true)
        },
        CoreAgentEvent::ToolCallStart { id: _, name, input } => {
            let e = AgentEvent::ToolCall {
                name: name.clone(),
                description: tool_call_description(name.as_str(), input),
            };
            out.push(e);
            proof {
                assert(session_events_view(out@) =~= seq![e@]);
            }
            (out, true)
        },
        CoreAgentEvent::ToolCallEnd { id: _, name: _, result, is_error: _ } => {
            let e = AgentEvent::ToolResult { preview: crate::agent::summarize_result(result.as_str()) };
            out.push(e);
            proof {
                assert(session_events_view(out@) =~= seq![e@]);
            }
            (out, true)
        },
        CoreAgentEvent::Error(m) => {
            let mut c = chars_of("[Error] ");
            push_str(&mut c, m.as_str());
            proof {
                reveal_strlit("[Error] ");
            }
            let e = AgentEvent::Text(string_of(c.as_slice()));
            out.push(e);
            proof {
                assert(session_events_view(out@) =~= seq![e@]);
            }
            (out, true)
        },
        _ => {
            proof {
                assert(session_events_view(out@) =~= Seq::<SessionEventView>::empty());
            }
            (out, false)
        },
    }
}

/// The agent events after which a session stops reading its agent's events.
pub fn ends_run(ev: &CoreAgentEvent) -> (b: bool)
    ensures
        b <==> (ev@ is AgentEnd || ev@ is Error),
{
    match ev {
        CoreAgentEvent::AgentEnd => true,
        CoreAgentEvent::Error(_) => true,
        _ => false,
    }
}

/// The client message for a session event.
pub fn daemon_message(ev: AgentEvent) -> (m: DaemonMessage)
    ensures
        match ev@ {
            SessionEventView::Text(l) => m matches DaemonMessage::Text { line } && line@ == l,
            SessionEventView::ToolCall(n, d) => m matches DaemonMessage::ToolCall {
                name,
                description,
            } && name@ == n && description@ == d,
            SessionEventView::ToolResult(p) => m matches DaemonMessage::ToolResult { preview }
                && preview@ == p,
            SessionEventView::TasksUpdated(d, t) => m matches DaemonMessage::TasksUpdated {
                done,
                total,
            } && done == d && total == t,
        },
{
    match ev {
        AgentEvent::Text(line) => DaemonMessage::Text { line },
        AgentEvent::ToolCall { name, description } => DaemonMessage::ToolCall { name, description },
        AgentEvent::ToolResult { preview } => DaemonMessage::ToolResult { preview },
        AgentEvent::TasksUpdated { done, total } => DaemonMessage::TasksUpdated { done, total },
    }
}

/// A lower-case hexadecimal digit for `d < 16`.
pub open spec fn hex_digit(d: nat) -> char {
    if d < 10 {
        ((48 + d) as u8) as char
    } else {
        ((87 + d) as u8) as char
    }
}

/// Four lower-case hexadecimal digits of a 16-bit number (`{:04x}`).
pub open spec fn hex4(n: u16) -> Seq<char> {
    seq![
        hex_digit((n / 4096) as nat),
        hex_digit(((n / 256) % 16) as nat),
        hex_digit(((n / 16) % 16) as nat),
        hex_digit((n % 16) as nat),
    ]
}

/// The session id made from a time in milliseconds and a process id: bits 16
/// to 31 of the time, then its low 16 bits mixed with the process id's.
pub open spec fn session_id_of(ts: u128, pid: u32) -> Seq<char> {
    hex4((ts >> 16u128) as u16) + hex4(((ts & 0xFFFFu128) as u16) ^ (pid as u16))
}

/// Executable `hex_digit`.
fn hex_char(d: u16) -> (c: char)
    requires
        d < 16,
    ensures
        c == hex_digit(d as nat),
{
    if d < 10 {
        ((48 + d) as u8) as char
    } else {
        ((87 + d) as u8) as char
    }
}

/// Appends four lower-case hexadecimal digits (`{:04x}`).
pub fn push_hex4(out: &mut Vec<char>, n: u16)
    ensures
        final(out)@ == old(out)@ + hex4(n),
{
    out.push(hex_char(n / 4096));
    out.push(hex_char((n / 256) % 16));
    out.push(hex_char((n / 16) % 16));
    out.push(hex_char(n % 16));
    proof {
        assert(out@ =~= old(out)@ + hex4(n));
    }
}

/// A session id from the current time in milliseconds and the process id.
pub fn generate_session_id(ts: u128, pid: u32) -> (r: String)
    ensures
        r@ == session_id_of(ts, pid),
{
    let hi: u16 = (ts >> 16u128) as u16;
    let lo: u16 = ((ts & 0xFFFFu128) as u16) ^ (pid as u16);
    let mut out: Vec<char> = Vec::new();
    push_hex4(&mut out, hi);
    push_hex4(&mut out, lo);
    proof {
        assert(out@ =~= session_id_of(ts, pid));
    }
    string_of(out.as_slice())
}

/// The text a session receives from another one: who sent it, the text, and
/// how to answer.
pub open spec fn peer_context_text(from: Seq<char>, text: Seq<char>) -> Seq<char> {
    "[来自 session "@ + from + " 的消息]\n"@ + text + "\n\n（使用 bash 执行 `mash msg "@ + from
        + " \"你的回复\"` 回复该 session）"@
}

/// The text injected into a session for a message from another session.
pub fn peer_context_message(from: &str, text: &str) -> (r: String)
    ensures
        r@ == peer_context_text(from@, text@),
{
    let mut c = chars_of("[来自 session ");
    push_str(&mut c, from);
    push_str(&mut c, " 的消息]\n");
    push_str(&mut c, text);
    push_str(&mut c, "\n\n（使用 bash 执行 `mash msg ");
    push_str(&mut c, from);
    push_str(&mut c, " \"你的回复\"` 回复该 session）");
    proof {
        assert(c@ =~= peer_context_text(from@, text@));
    }
    string_of(c.as_slice())
}

/// The error for a message to a session that does not exist.
pub open spec fn not_found_text(target: Seq<char>) -> Seq<char> {
    "session '"@ + target + "' not found"@
}

/// The reply to a message for a session that does not exist.
pub fn session_not_found(target: &str) -> (m: DaemonMessage)
    ensures
        m matches DaemonMessage::AgentError { message } && message@ == not_found_text(target@),
{
    let mut c = chars_of("session '");
    push_str(&mut c, target);
    push_str(&mut c, "' not found");
    proof {
        assert(c@ =~= not_found_text(target@));
    }
    DaemonMessage::AgentError { message: string_of(c.as_slice()) }
}

/// The full name of an MCP tool: `mcp__<server>__<tool>`.
pub open spec fn mcp_name(server: Seq<char>, tool: Seq<char>) -> Seq<char> {
    "mcp__"@ + server + "__"@ + tool
}

/// The full name under which an MCP tool is called.
pub fn mcp_tool_name(server: &str, tool: &str) -> (r: String)
    ensures
        r@ == mcp_name(server@, tool@),
{
    let mut c = chars_of("mcp__");
    push_str(&mut c, server);
    push_str(&mut c, "__");
    push_str(&mut c, tool);
    proof {
        assert(c@ =~= mcp_name(server@, tool@));
    }
    string_of(c.as_slice())
}

/// The reply to an MCP call: its output, or `Error: ` and the error.
pub fn mcp_reply(outcome: Result<String, String>) -> (m: DaemonMessage)
    ensures
        m matches DaemonMessage::McpResult { result } && result@ == match outcome {
            Ok(o) => o@,
            Err(e) => "Error: "@ + e@,
        },
{
    match outcome {
        Ok(o) => DaemonMessage::McpResult { result: o },
        Err(e) => {
            let mut c = chars_of("Error: ");
            push_str(&mut c, e.as_str());
            proof {
                reveal_strlit("Error: ");
            }
            DaemonMessage::McpResult { result: string_of(c.as_slice()) }
        },
    }
}

/// A session's system prompt: the base, then its extra instructions after a
/// blank line when it has any.
pub open spec fn session_system_text(base: Seq<char>, extra: Option<Seq<char>>) -> Seq<char> {
    match extra {
        Some(x) => base + "\n\n"@ + x,
        None => base,
    }
}

/// The system prompt for a session's agent run.
pub fn session_system(base: &str, extra: Option<&str>) -> (r: String)
    ensures
        r@ == session_system_text(
            base@,
            match extra {
                Some(x) => Some(x@),
                None => None,
            },
        ),
{
    match extra {
        Some(x) => {
            let mut c = chars_of(base);
            push_str(&mut c, "\n\n");
            push_str(&mut c, x);
            proof {
                reveal_strlit("\n\n");
            }
            string_of(c.as_slice())
        },
        None => base.to_owned(),
    }
}

/// The messages a look at a session's task file gives: when it holds a task
/// line (`- [`), its progress (if it has one) and then its text.
pub open spec fn task_poll_messages(content: Seq<char>) -> Seq<(Option<(nat, nat)>, Seq<char>)> {
    if contains(content, "- ["@) {
        seq![(task_summary(content), content)]
    } else {
        Seq::empty()
    }
}

/// What a look at a session's task file sends to its clients.
pub fn task_poll(content: &str) -> (r: Vec<DaemonMessage>)
    ensures
        contains(content@, "- ["@) ==> match task_summary(content@) {
            Some((d, t)) => r@.len() == 2 && (r@[0] matches DaemonMessage::TasksUpdated {
                done,
                total,
            } && done == d && total == t) && (r@[1] matches DaemonMessage::TaskContent { content: c }
                && c@ == content@),
            None => r@.len() == 1 && (r@[0] matches DaemonMessage::TaskContent { content: c } && c@
                == content@),
        },
        !contains(content@, "- ["@) ==> r@.len() == 0,
{
    let mut out: Vec<DaemonMessage> = Vec::new();
    let cs = chars_of(content);
    let mark = chars_of("- [");
    if !contains_chars(cs.as_slice(), mark.as_slice()) {
        return out;
    }
    match read_task_summary(content) {
        Some((done, total)) => {
            out.push(DaemonMessage::TasksUpdated { done, total });
        },
        None => {},
    }
    out.push(DaemonMessage::TaskContent { content: content.to_owned() });
    out
}

/// The daemon's view of one session.
#[derive(Debug)]
pub struct SessionState {
    pub id: String,
    pub busy: bool,
    pub headless: bool,
    pub cwd: Option<String>,
    pub pending_user_messages: Vec<String>,
    pub system_extra: Option<String>,
}

impl SessionState {
    /// A new idle session.
    pub fn new(id: String) -> (s: SessionState)
        ensures
            s.id@ == id@,
            !s.busy,
            !s.headless,
            s.cwd is None,
            s.pending_user_messages@.len() == 0,
            s.system_extra is None,
    {
        SessionState {
            id,
            busy: false,
            headless: false,
            cwd: None,
            pending_user_messages: Vec::new(),
            system_extra: None,
        }
    }

    /// Records the client's working directory and whether it is headless.
    pub fn init(&mut self, cwd: String, headless: bool)
        ensures
            final(self).cwd matches Some(c) && c@ == cwd@,
            final(self).headless == headless,
            final(self).id == old(self).id,
            final(self).busy == old(self).busy,
            final(self).pending_user_messages == old(self).pending_user_messages,
            final(self).system_extra == old(self).system_extra,
    {
        self.cwd = Some(cwd);
        self.headless = headless;
    }

    /// A user message: extra instructions, when given, replace the session's;
    /// a busy session queues the text, an idle one becomes busy and gives the
    /// text to start the agent with.
    pub fn send_message(&mut self, text: String, system_extra: Option<String>) -> (start: Option<
        String,
    >)
        ensures
            final(self).system_extra == (match system_extra {
                Some(x) => Some(x),
                None => old(self).system_extra,
            }),
            old(self).busy ==> start is None && final(self).pending_user_messages@ == old(
                self,
            ).pending_user_messages@.push(text),
            !old(self).busy ==> start == Some(text) && final(self).pending_user_messages
                == old(self).pending_user_messages,
            final(self).busy,
            final(self).id == old(self).id,
            final(self).headless == old(self).headless,
    {
        match system_extra {
            Some(x) => {
                self.system_extra = Some(x);
            },
            None => {},
        }
        if self.busy {
            self.pending_user_messages.push(text);
            None
        } else {
            self.busy = true;
            Some(text)
        }
    }

    /// A text from another session: queued for this session's agent with the
    /// sender and how to answer; gives the notice for this session's clients.
    pub fn receive_peer(&mut self, from: &str, text: &str) -> (m: DaemonMessage)
        ensures
            final(self).pending_user_messages@.len() == old(self).pending_user_messages@.len() + 1,
            final(self).pending_user_messages@.take(old(self).pending_user_messages@.len() as int)
                == old(self).pending_user_messages@,
            final(self).pending_user_messages@.last()@ == peer_context_text(from@, text@),
            m matches DaemonMessage::PeerMessage { from: f, text: t } && f@ == from@ && t@ == text@,
            final(self).busy == old(self).busy,
            final(self).id == old(self).id,
    {
        let c = peer_context_message(from, text);
        self.pending_user_messages.push(c);
        proof {
            assert(self.pending_user_messages@.take(old(self).pending_user_messages@.len() as int)
                =~= old(self).pending_user_messages@);
        }
        DaemonMessage::PeerMessage { from: from.to_owned(), text: text.to_owned() }
    }

    /// The agent run ended: the session is idle again, and its clients learn
    /// whether the run completed or failed.
    pub fn finish_run(&mut self, outcome: Result<(), String>) -> (m: DaemonMessage)
        ensures
            !final(self).busy,
            final(self).id == old(self).id,
            final(self).pending_user_messages == old(self).pending_user_messages,
            match outcome {
                Ok(()) => m is AgentCompleted,
                Err(e) => m matches DaemonMessage::AgentError { message } && message@ == e@,
            },
    {
        self.busy = false;
        match outcome {
            Ok(()) => DaemonMessage::AgentCompleted,
            Err(e) => DaemonMessage::AgentError { message: e },
        }
    }
}

/// The listed sessions: all but the headless ones, in order.
pub open spec fn listed_sessions(ss: Seq<SessionState>) -> Seq<(Seq<char>, bool)>
    decreases ss.len(),
{
    if ss.len() == 0 {
        Seq::empty()
    } else {
        let r = listed_sessions(ss.drop_last());
        if ss.last().headless {
            r
        } else {
            r.push((ss.last().id@, ss.last().busy))
        }
    }
}

/// The reply to a request for the active sessions.
pub fn session_list(sessions: &Vec<SessionState>) -> (m: DaemonMessage)
    ensures
        m matches DaemonMessage::SessionList { sessions: l } && l@.map_values(
            |s: SessionInfo| (s.id@, s.busy),
        ) == listed_sessions(sessions@),
{
    let mut l: Vec<SessionInfo> = Vec::new();
    let mut i: usize = 0;
    proof {
        assert(sessions@.take(0) =~= Seq::<SessionState>::empty());
        assert(l@.map_values(|s: SessionInfo| (s.id@, s.busy)) =~= Seq::<(Seq<char>, bool)>::empty());
    }
    while i < sessions.len()
        invariant
            i <= sessions@.len(),
            l@.map_values(|s: SessionInfo| (s.id@, s.busy)) == listed_sessions(sessions@.take(i as int)),
        decreases sessions@.len() - i,
    {
        proof {
            assert(sessions@.take(i + 1).drop_last() =~= sessions@.take(i as int));
            assert(sessions@.take(i + 1).last() == sessions@[i as int]);
        }
        if !sessions[i].headless {
            let info = SessionInfo { id: sessions[i].id.clone(), busy: sessions[i].busy };
            let ghost before = l@;
            l.push(info);
            proof {
                assert(l@.map_values(|s: SessionInfo| (s.id@, s.busy)) =~= before.map_values(
                    |s: SessionInfo| (s.id@, s.busy),
                ).push((info.id@, info.busy)));
            }
        }
        i = i + 1;
    }
    proof {
        assert(sessions@.take(i as int) =~= sessions@);
    }
    DaemonMessage::SessionList { sessions: l }
}

/// The settings of an agent run: system prompt, model and token limit.
#[derive(Debug)]
pub struct AgentConfig {
    pub system: String,
    pub model: String,
    pub max_tokens: u32,
}

impl AgentConfig {
    /// The settings for a session: the system prompt with the session's extra
    /// instructions, when it has any.
    pub fn for_session(&self, extra: Option<&str>) -> (r: AgentConfig)
        ensures
            r.system@ == session_system_text(
                self.system@,
                match extra {
                    Some(x) => Some(x@),
                    None => None,
                },
            ),
            r.model@ == self.model@,
            r.max_tokens == self.max_tokens,
    {
        AgentConfig {
            system: session_system(self.system.as_str(), extra),
            model: self.model.clone(),
            max_tokens: self.max_tokens,
        }
    }
}

impl SessionState {
    /// An idle session with queued texts takes up the first of them: it
    /// becomes busy and gives the text to start the agent with.
    pub fn take_queued(&mut self) -> (start: Option<String>)
        ensures
            !old(self).busy && old(self).pending_user_messages@.len() > 0 ==> (start matches Some(t)
                && t == old(self).pending_user_messages@[0] && final(self).busy
                && final(self).pending_user_messages@ == old(self).pending_user_messages@.skip(1)),
            old(self).busy || old(self).pending_user_messages@.len() == 0 ==> start is None
                && final(self).busy == old(self).busy && final(self).pending_user_messages == old(self).pending_user_messages,
            final(self).id == old(self).id,
            final(self).headless == old(self).headless,
    {
        if self.busy || self.pending_user_messages.len() == 0 {
            return None;
        }
        let first = self.pending_user_messages.remove(0);
        self.busy = true;
        proof {
            assert(self.pending_user_messages@ =~= old(self).pending_user_messages@.skip(1));
        }
        Some(first)
    }
}

} // verus!
