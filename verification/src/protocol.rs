//! Messages between the daemon and its clients (one JSON object per line on
//! the wire; the encoding is done outside the library).
use vstd::prelude::*;
use crate::json::{json_tree, JsonTree};

verus! {

/// A skill the daemon offers, as announced to clients.
#[derive(Debug, Clone)]
pub struct SkillEntry {
    pub name: String,
    pub description: String,
}

/// An active session, as listed to clients.
#[derive(Debug, Clone)]
pub struct SessionInfo {
    pub id: String,
    pub busy: bool,
}

/// An MCP server and the names of its tools.
#[derive(Debug, Clone)]
pub struct McpServerInfo {
    pub name: String,
    pub tools: Vec<String>,
}

/// A message from a client to the daemon.
#[derive(Debug)]
pub enum ClientMessage {
    /// Sets the session's working directory; a headless session is left out of
    /// session lists.
    Init { cwd: String, headless: bool },
    /// A user message; starts the agent when the session is idle.
    SendMessage { text: String, system_extra: Option<String> },
    /// Forgets the conversation.
    ClearHistory,
    /// Asks for the active sessions.
    ListSessions,
    /// Asks for the MCP servers and their tools.
    ListMcp,
    /// A text for another session.
    SendToSession { target: String, text: String, from: Option<String> },
    /// Calls an MCP tool through the daemon.
    McpCall { server: String, tool: String, arguments: serde_json::Value },
}

/// A message from the daemon to a client.
#[derive(Debug, Clone)]
pub enum DaemonMessage {
    /// Sent first on every connection.
    Welcome { version: u32, session_id: String, skills: Vec<SkillEntry>, busy: bool },
    /// The agent started working.
    AgentStarted,
    /// A line of assistant text.
    Text { line: String },
    /// A tool is being called.
    ToolCall { name: String, description: String },
    /// The first line of a tool's result.
    ToolResult { preview: String },
    /// Task progress.
    TasksUpdated { done: usize, total: usize },
    /// The task file's text.
    TaskContent { content: String },
    /// The agent finished.
    AgentCompleted,
    /// The agent failed, or a request could not be served.
    AgentError { message: String },
    /// The active sessions.
    SessionList { sessions: Vec<SessionInfo> },
    /// The MCP servers.
    McpList { servers: Vec<McpServerInfo> },
    /// A text from another session.
    PeerMessage { from: String, text: String },
    /// The output of an MCP call.
    McpResult { result: String },
}

/// The content of a client message.
pub ghost enum ClientView {
    Init(Seq<char>, bool),
    SendMessage(Seq<char>, Option<Seq<char>>),
    ClearHistory,
    ListSessions,
    ListMcp,
    SendToSession(Seq<char>, Seq<char>, Option<Seq<char>>),
    McpCall(Seq<char>, Seq<char>, JsonTree),
}

/// Views of an optional text.
pub open spec fn opt_seq(o: Option<String>) -> Option<Seq<char>> {
    match o {
        Some(s) => Some(s@),
        None => None,
    }
}

impl View for ClientMessage {
    type V = ClientView;

    open spec fn view(&self) -> ClientView {
        match self {
            ClientMessage::Init { cwd, headless } => ClientView::Init(cwd@, *headless),
            ClientMessage::SendMessage { text, system_extra } => ClientView::SendMessage(
                text@,
                opt_seq(*system_extra),
            ),
            ClientMessage::ClearHistory => ClientView::ClearHistory,
            ClientMessage::ListSessions => ClientView::ListSessions,
            ClientMessage::ListMcp => ClientView::ListMcp,
            ClientMessage::SendToSession { target, text, from } => ClientView::SendToSession(
                target@,
                text@,
                opt_seq(*from),
            ),
            ClientMessage::McpCall { server, tool, arguments } => ClientView::McpCall(
                server@,
                tool@,
                json_tree(*arguments),
            ),
        }
    }
}

} // verus!
