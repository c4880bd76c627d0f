//! What the terminal client shows and sends: the lines printed for each
//! message, the inline markdown highlighting, the slash-command menu and the
//! input line, and the status line.
use vstd::prelude::*;
use vstd::string::StringSliceAdditionalSpecFns;
use crate::protocol::{
    ClientMessage, ClientView, DaemonMessage, McpServerInfo, SessionInfo, SkillEntry,
};
use crate::json::{json_parse, parse_json, str_field, str_member};
use crate::tasks::{file_name_of, node_done, path_file_name, slice_eq, task_node_done};
use crate::text::strings_view;
use crate::text::{
    chars_of, find, find_chars, has_prefix, occurs_at, lemma_find_from, push_all, push_str, slice_range,
    starts_with, string_of, decimal, push_decimal, contains, contains_chars, trim, trim_chars,
    after_prefix, strip_prefix_chars, byte_prefix_chars, utf8_len, lemma_prefix_bytes_le, lines, lines_of,
    lemma_split_on_len,
};
use crate::daemon::{hex4, push_hex4};
use vstd::utf8::encode_utf8;

verus! {

/// The name shown for a path: its last component, or the path itself when it
/// has none.
pub open spec fn shown_file_name(path: Seq<char>) -> Seq<char> {
    match path_file_name(path) {
        Some(n) => if n.len() > 0 {
            n
        } else {
            path
        },
        None => path,
    }
}

/// The file name shown for a path.
pub fn file_name_from_path(path: &str) -> (r: String)
    ensures
        r@ == shown_file_name(path@),
{
    match file_name_of(path) {
        Some(n) => {
            if n.as_str().unicode_len() > 0 {
                n
            } else {
                path.to_owned()
            }
        },
        None => path.to_owned(),
    }
}

/// A byte read as a character (its code point is the byte's value).
pub open spec fn byte_char(b: u8) -> char {
    b as char
}

/// The quoted text from byte `i` on, up to the closing quote `q`: a backslash
/// takes the next byte literally; every byte counts as the character of the
/// same value. Gives the text and the position after the closing quote, or
/// `None` when the quote is not closed.
pub open spec fn quoted_from(b: Seq<u8>, i: int, q: u8) -> Option<(Seq<char>, int)>
    decreases b.len() - i,
{
    if i < 0 || i >= b.len() {
        None
    } else if b[i] == q {
        Some((Seq::empty(), i + 1))
    } else if b[i] == 92u8 && i + 1 < b.len() {
        match quoted_from(b, i + 2, q) {
            Some((s, e)) => Some((seq![byte_char(b[i + 1])] + s, e)),
            None => None,
        }
    } else {
        match quoted_from(b, i + 1, q) {
            Some((s, e)) => Some((seq![byte_char(b[i])] + s, e)),
            None => None,
        }
    }
}

/// The value quoted (with `"` or `'`) at byte `start`, and the position after it.
pub open spec fn quoted_at(b: Seq<u8>, start: int) -> Option<(Seq<char>, int)> {
    if start < 0 || start >= b.len() {
        None
    } else if b[start] != 34u8 && b[start] != 39u8 {
        None
    } else {
        quoted_from(b, start + 1, b[start])
    }
}

/// Reads the value quoted at byte `start` of `input`.
pub fn extract_quoted_value(input: &str, start: usize) -> (r: Option<(String, usize)>)
    ensures
        r is Some <==> quoted_at(input.spec_bytes(), start as int) is Some,
        r matches Some(p) ==> p.0@ == quoted_at(input.spec_bytes(), start as int).unwrap().0 && p.1
            == quoted_at(input.spec_bytes(), start as int).unwrap().1,
{
    let bytes = input.as_bytes();
    let ghost bs = input.spec_bytes();
    let n = bytes.len();
    if start >= n {
        return None;
    }
    let quote = bytes[start];
    if quote != 34u8 && quote != 39u8 {
        return None;
    }
    let mut i = start + 1;
    let mut out: Vec<char> = Vec::new();
    while i < n
        invariant
            bytes@ == bs,
            bs == input.spec_bytes(),
            n == bs.len(),
            start < i <= n + 1,
            quoted_at(bs, start as int) == match quoted_from(bs, i as int, quote) {
                Some((s, e)) => Some((out@ + s, e)),
                None => None::<(Seq<char>, int)>,
            },
        decreases n + 1 - i,
    {
        let b = bytes[i];
        if b == quote {
            proof {
                assert(bs[i as int] == quote);
                assert(quoted_from(bs, i as int, quote) == Some((Seq::<char>::empty(), i + 1)));
                assert(out@ + Seq::<char>::empty() =~= out@);
                assert(quoted_at(bs, start as int) == Some((out@, i + 1)));
            }
            return Some((string_of(out.as_slice()), i + 1));
        }
        if b == 92u8 && i + 1 < n {
            let ghost before = out@;
            out.push(bytes[i + 1] as char);
            proof {
                assert forall|s: Seq<char>| #[trigger] (before + (seq![byte_char(bs[i + 1])] + s)) == out@ + s by {
                    assert(before + (seq![byte_char(bs[i + 1])] + s) =~= out@ + s);
                }
            }
            i = i + 2;
        } else {
            let ghost before = out@;
            out.push(b as char);
            proof {
                assert forall|s: Seq<char>| #[trigger] (before + (seq![byte_char(bs[i as int])] + s)) == out@ + s by {
                    assert(before + (seq![byte_char(bs[i as int])] + s) =~= out@ + s);
                }
            }
            i = i + 1;
        }
    }
    None
}

/// `p` occurs in `s` at byte `i`.
pub open spec fn bytes_at(s: Seq<u8>, p: Seq<u8>, i: int) -> bool {
    0 <= i && i + p.len() <= s.len() && s.subrange(i, i + p.len()) == p
}

/// The first byte position at or after `from` where `p` occurs in `s`.
pub open spec fn find_bytes_from(s: Seq<u8>, p: Seq<u8>, from: int) -> Option<int>
    decreases s.len() - from,
{
    if from < 0 || from + p.len() > s.len() {
        None
    } else if bytes_at(s, p, from) {
        Some(from)
    } else {
        proof {
            if p.len() == 0 {
                assert(s.subrange(from, from + p.len()) =~= p);
            }
        }
        find_bytes_from(s, p, from + 1)
    }
}

/// An ASCII whitespace byte (`u8::is_ascii_whitespace`).
pub open spec fn ascii_ws(b: u8) -> bool {
    b == 9u8 || b == 10u8 || b == 12u8 || b == 13u8 || b == 32u8
}

/// The first position at or after `i` that is not ASCII whitespace.
pub open spec fn skip_ws(s: Seq<u8>, i: int) -> int
    decreases s.len() - i,
{
    if i < 0 || i >= s.len() || !ascii_ws(s[i]) {
        i
    } else {
        skip_ws(s, i + 1)
    }
}

/// Executable `find_bytes_from`.
fn find_bytes(s: &[u8], p: &[u8], from: usize) -> (r: Option<usize>)
    ensures
        r is Some <==> find_bytes_from(s@, p@, from as int) is Some,
        r matches Some(k) ==> find_bytes_from(s@, p@, from as int) == Some(k as int) && bytes_at(
            s@,
            p@,
            k as int,
        ) && from <= k,
    decreases s@.len() - from,
{
    let n = s.len();
    let m = p.len();
    if from > n || m > n - from {
        return None;
    }
    let mut j: usize = 0;
    while j < m
        invariant
            j <= m,
            m == p@.len(),
            n == s@.len(),
            from + m <= n,
            forall|k: int| 0 <= k < j ==> s@[from + k] == p@[k],
        decreases m - j,
    {
        if s[from + j] != p[j] {
            proof {
                assert(s@.subrange(from as int, from + m)[j as int] != p@[j as int]);
            }
            return find_bytes(s, p, from + 1);
        }
        j = j + 1;
    }
    proof {
        assert(s@.subrange(from as int, from + m) =~= p@);
    }
    Some(from)
}

/// Executable `skip_ws`.
fn skip_ascii_ws(s: &[u8], i: usize) -> (r: usize)
    ensures
        r == skip_ws(s@, i as int),
    decreases s@.len() - i,
{
    if i >= s.len() {
        return i;
    }
    let b = s[i];
    if b == 9u8 || b == 10u8 || b == 12u8 || b == 13u8 || b == 32u8 {
        skip_ascii_ws(s, i + 1)
    } else {
        i
    }
}

/// A `mash agent "<user>" [--system "<system>"]` command found in a shell
/// command line: the quoted user prompt, and the quoted system text when an
/// `--system` follows it.
pub open spec fn agent_command(cmd: Seq<u8>) -> Option<(Seq<char>, Option<Seq<char>>)> {
    let mark = "mash agent".spec_bytes();
    let sys = "--system".spec_bytes();
    match find_bytes_from(cmd, mark, 0) {
        None => None,
        Some(idx) => match quoted_at(cmd, skip_ws(cmd, idx + mark.len())) {
            None => None,
            Some((user, cursor)) => Some(
                (
                    user,
                    match find_bytes_from(cmd, sys, cursor) {
                        Some(k) => match quoted_at(cmd, skip_ws(cmd, k + sys.len())) {
                            Some((x, _)) => Some(x),
                            None => None,
                        },
                        None => None,
                    },
                ),
            ),
        },
    }
}

/// Reads a `mash agent` invocation out of a shell command line.
pub fn parse_mash_agent_command(cmd: &str) -> (r: Option<(String, Option<String>)>)
    ensures
        r is Some <==> agent_command(cmd.spec_bytes()) is Some,
        r matches Some(p) ==> p.0@ == agent_command(cmd.spec_bytes()).unwrap().0 && match p.1 {
            Some(x) => agent_command(cmd.spec_bytes()).unwrap().1 == Some(x@),
            None => agent_command(cmd.spec_bytes()).unwrap().1 is None,
        },
{
    let bytes = cmd.as_bytes();
    let mark = "mash agent".as_bytes();
    let sys = "--system".as_bytes();
    let idx = match find_bytes(bytes, mark, 0) {
        Some(k) => k,
        None => {
            return None;
        },
    };
    let n = bytes.len();
    let i = skip_ascii_ws(bytes, idx + mark.len());
    let (user, cursor) = match extract_quoted_value(cmd, i) {
        Some(p) => p,
        None => {
            return None;
        },
    };
    let system = match find_bytes(bytes, sys, cursor) {
        Some(k) => {
            let j = skip_ascii_ws(bytes, k + sys.len());
            match extract_quoted_value(cmd, j) {
                Some((x, _)) => Some(x),
                None => None,
            }
        },
        None => None,
    };
    Some((user, system))
}

/// The escape sequence that starts yellow text.
pub open spec fn ansi_yellow() -> Seq<char> {
    "\x1b[33m"@
}

/// The escape sequence that starts bright blue text.
pub open spec fn ansi_blue() -> Seq<char> {
    "\x1b[94m"@
}

/// The escape sequence that resets the colour.
pub open spec fn ansi_reset() -> Seq<char> {
    "\x1b[0m"@
}

/// A coloured span for a non-empty text; nothing for an empty one.
pub open spec fn colored(color: Seq<char>, t: Seq<char>) -> Seq<char> {
    if t.len() > 0 {
        color + t + ansi_reset()
    } else {
        Seq::empty()
    }
}

/// Inline markdown rendered for the terminal: `` `code` `` in bright blue and,
/// when `bold` is on, `**bold**` in yellow, with the markers hidden; a marker
/// that is never closed is kept, with the rest of the text, as it is.
pub open spec fn highlight(s: Seq<char>, bold: bool) -> Seq<char>
    decreases s.len(),
{
    if s.len() == 0 {
        Seq::empty()
    } else if bold && has_prefix(s, "**"@) {
        proof {
            reveal_strlit("**");
        }
        let rest = s.skip(2);
        match find(rest, "**"@) {
            Some(j) => {
                proof {
                    lemma_find_from(rest, "**"@, 0);
                }
                colored(ansi_yellow(), rest.take(j)) + highlight(rest.skip(j + 2), bold)
            },
            None => "**"@ + rest,
        }
    } else if s[0] == '`' {
        proof {
            reveal_strlit("`");
        }
        let rest = s.skip(1);
        match find(rest, "`"@) {
            Some(j) => {
                proof {
                    lemma_find_from(rest, "`"@, 0);
                }
                colored(ansi_blue(), rest.take(j)) + highlight(rest.skip(j + 1), bold)
            },
            None => "`"@ + rest,
        }
    } else {
        seq![s[0]] + highlight(s.skip(1), bold)
    }
}

/// Appends a coloured span for a non-empty text.
fn push_colored(out: &mut Vec<char>, color: &str, t: &[char])
    ensures
        final(out)@ == old(out)@ + colored(color@, t@),
{
    if t.len() > 0 {
        push_str(out, color);
        push_all(out, t);
        push_str(out, "\x1b[0m");
        proof {
            assert(final(out)@ =~= old(out)@ + colored(color@, t@));
        }
    } else {
        proof {
            assert(out@ =~= old(out)@ + colored(color@, t@));
        }
    }
}

/// Renders inline markdown for the terminal (see `highlight`).
fn highlight_with(input: &str, bold: bool) -> (r: String)
    ensures
        r@ == highlight(input@, bold),
{
    let mut cur = chars_of(input);
    let mut out: Vec<char> = Vec::new();
    let stars = chars_of("**");
    let tick = chars_of("`");
    proof {
        reveal_strlit("**");
        reveal_strlit("`");
        assert(out@ + highlight(cur@, bold) =~= highlight(input@, bold));
    }
    while cur.len() > 0
        invariant
            stars@ == "**"@,
            tick@ == "`"@,
            out@ + highlight(cur@, bold) == highlight(input@, bold),
        decreases cur@.len(),
    {
        proof {
            reveal_strlit("**");
            reveal_strlit("`");
        }
        let n = cur.len();
        if bold && starts_with(cur.as_slice(), stars.as_slice()) {
            let rest = slice_range(cur.as_slice(), 2, n);
            proof {
                assert(rest@ =~= cur@.skip(2));
                lemma_find_from(rest@, stars@, 0);
            }
            match find_chars(rest.as_slice(), stars.as_slice()) {
                Some(j) => {
                    let rn = rest.len();
                    let inner = slice_range(rest.as_slice(), 0, j);
                    let next = slice_range(rest.as_slice(), j + 2, rn);
                    let ghost before = out@;
                    push_colored(&mut out, "\x1b[33m", inner.as_slice());
                    proof {
                        assert(inner@ =~= rest@.take(j as int));
                        assert(next@ =~= rest@.skip(j + 2));
                        assert(out@ + highlight(next@, bold) =~= before + highlight(cur@, bold));
                    }
                    cur = next;
                },
                None => {
                    push_str(&mut out, "**");
                    push_all(&mut out, rest.as_slice());
                    proof {
                        assert(out@ + highlight(Seq::<char>::empty(), bold) =~= highlight(input@, bold));
                    }
                    cur = Vec::new();
                },
            }
        } else if cur[0] == '`' {
            let rest = slice_range(cur.as_slice(), 1, n);
            proof {
                assert(rest@ =~= cur@.skip(1));
                lemma_find_from(rest@, tick@, 0);
            }
            match find_chars(rest.as_slice(), tick.as_slice()) {
                Some(j) => {
                    let rn = rest.len();
                    let inner = slice_range(rest.as_slice(), 0, j);
                    let next = slice_range(rest.as_slice(), j + 1, rn);
                    let ghost before = out@;
                    push_colored(&mut out, "\x1b[94m", inner.as_slice());
                    proof {
                        assert(inner@ =~= rest@.take(j as int));
                        assert(next@ =~= rest@.skip(j + 1));
                        assert(out@ + highlight(next@, bold) =~= before + highlight(cur@, bold));
                    }
                    cur = next;
                },
                None => {
                    push_str(&mut out, "`");
                    push_all(&mut out, rest.as_slice());
                    proof {
                        assert(out@ + highlight(Seq::<char>::empty(), bold) =~= highlight(input@, bold));
                    }
                    cur = Vec::new();
                },
            }
        } else {
            let c = cur[0];
            let next = slice_range(cur.as_slice(), 1, n);
            let ghost before = out@;
            out.push(c);
            proof {
                assert(next@ =~= cur@.skip(1));
                assert(out@ + highlight(next@, bold) =~= before + highlight(cur@, bold));
            }
            cur = next;
        }
    }
    proof {
        assert(out@ + highlight(cur@, bold) =~= out@);
    }
    string_of(out.as_slice())
}

/// Renders `` `code` `` in bright blue and `**bold**` in yellow.
pub fn highlight_inline_code(input: &str) -> (r: String)
    ensures
        r@ == highlight(input@, true),
{
    highlight_with(input, true)
}

/// Renders only `` `code` `` (in bright blue), leaving `*` alone.
pub fn highlight_code_spans(input: &str) -> (r: String)
    ensures
        r@ == highlight(input@, false),
{
    highlight_with(input, false)
}

/// A message shown by the client.
#[derive(Debug, Clone)]
pub enum AppMessage {
    UserMessage(String),
    AssistantLine(String),
    ToolCall { name: String, description: String },
    ToolResult { preview: String },
    AgentTaskStarted,
    AgentCompleted,
    AgentError(String),
    TasksUpdated { done: usize, total: usize },
    TaskContent(String),
    SessionList(Vec<SessionInfo>),
    McpList(Vec<McpServerInfo>),
    PeerMessage { from: String, text: String },
}

/// The content of a client message.
pub ghost enum AppView {
    UserMessage(Seq<char>),
    AssistantLine(Seq<char>),
    ToolCall(Seq<char>, Seq<char>),
    ToolResult(Seq<char>),
    AgentTaskStarted,
    AgentCompleted,
    AgentError(Seq<char>),
    TasksUpdated(nat, nat),
    TaskContent(Seq<char>),
    SessionList(Seq<(Seq<char>, bool)>),
    McpList(Seq<(Seq<char>, Seq<Seq<char>>)>),
    PeerMessage(Seq<char>, Seq<char>),
}

/// Views of listed sessions: id and whether busy.
pub open spec fn sessions_view(v: Seq<SessionInfo>) -> Seq<(Seq<char>, bool)> {
    v.map_values(|s: SessionInfo| (s.id@, s.busy))
}

/// Views of MCP servers: name and tool names.
pub open spec fn servers_view(v: Seq<McpServerInfo>) -> Seq<(Seq<char>, Seq<Seq<char>>)> {
    v.map_values(|s: McpServerInfo| (s.name@, strings_view(s.tools@)))
}

impl View for AppMessage {
    type V = AppView;

    open spec fn view(&self) -> AppView {
        match self {
            AppMessage::UserMessage(t) => AppView::UserMessage(t@),
            AppMessage::AssistantLine(l) => AppView::AssistantLine(l@),
            AppMessage::ToolCall { name, description } => AppView::ToolCall(name@, description@),
            AppMessage::ToolResult { preview } => AppView::ToolResult(preview@),
            AppMessage::AgentTaskStarted => AppView::AgentTaskStarted,
            AppMessage::AgentCompleted => AppView::AgentCompleted,
            AppMessage::AgentError(e) => AppView::AgentError(e@),
            AppMessage::TasksUpdated { done, total } => AppView::TasksUpdated(
                *done as nat,
                *total as nat,
            ),
            AppMessage::TaskContent(c) => AppView::TaskContent(c@),
            AppMessage::SessionList(s) => AppView::SessionList(sessions_view(s@)),
            AppMessage::McpList(s) => AppView::McpList(servers_view(s@)),
            AppMessage::PeerMessage { from, text } => AppView::PeerMessage(from@, text@),
        }
    }
}

/// The client message for a daemon message; `Welcome` and MCP results are
/// not shown.
pub fn app_message_of(msg: DaemonMessage) -> (r: Option<AppMessage>)
    ensures
        match msg {
            DaemonMessage::Welcome { .. } => r is None,
            DaemonMessage::McpResult { .. } => r is None,
            DaemonMessage::AgentStarted => r matches Some(m) && m@ == AppView::AgentTaskStarted,
            DaemonMessage::Text { line } => r matches Some(m) && m@ == AppView::AssistantLine(line@),
            DaemonMessage::ToolCall { name, description } => r matches Some(m) && m@
                == AppView::ToolCall(name@, description@),
            DaemonMessage::ToolResult { preview } => r matches Some(m) && m@ == AppView::ToolResult(
                preview@,
            ),
            DaemonMessage::TasksUpdated { done, total } => r matches Some(m) && m@
                == AppView::TasksUpdated(done as nat, total as nat),
            DaemonMessage::TaskContent { content } => r matches Some(m) && m@ == AppView::TaskContent(
                content@,
            ),
            DaemonMessage::AgentCompleted => r matches Some(m) && m@ == AppView::AgentCompleted,
            DaemonMessage::AgentError { message } => r matches Some(m) && m@ == AppView::AgentError(
                message@,
            ),
            DaemonMessage::SessionList { sessions } => r matches Some(m) && m@ == AppView::SessionList(
                sessions_view(sessions@),
            ),
            DaemonMessage::McpList { servers } => r matches Some(m) && m@ == AppView::McpList(
                servers_view(servers@),
            ),
            DaemonMessage::PeerMessage { from, text } => r matches Some(m) && m@
                == AppView::PeerMessage(from@, text@),
        },
{
    match msg {
        DaemonMessage::AgentStarted => Some(AppMessage::AgentTaskStarted),
        DaemonMessage::Text { line } => Some(AppMessage::AssistantLine(line)),
        DaemonMessage::ToolCall { name, description } => Some(AppMessage::ToolCall { name, description }),
        DaemonMessage::ToolResult { preview } => Some(AppMessage::ToolResult { preview }),
        DaemonMessage::TasksUpdated { done, total } => Some(AppMessage::TasksUpdated { done, total }),
        DaemonMessage::TaskContent { content } => Some(AppMessage::TaskContent(content)),
        DaemonMessage::AgentCompleted => Some(AppMessage::AgentCompleted),
        DaemonMessage::AgentError { message } => Some(AppMessage::AgentError(message)),
        DaemonMessage::SessionList { sessions } => Some(AppMessage::SessionList(sessions)),
        DaemonMessage::McpList { servers } => Some(AppMessage::McpList(servers)),
        DaemonMessage::PeerMessage { from, text } => Some(AppMessage::PeerMessage { from, text }),
        DaemonMessage::Welcome { .. } => None,
        DaemonMessage::McpResult { .. } => None,
    }
}

/// The line for a tool call: file tools show the file name, a `bash` call
/// that runs `mash agent` shows the agent's prompts, other calls show their
/// description.
pub open spec fn tool_call_line(name: Seq<char>, desc: Seq<char>) -> Seq<char> {
    let g = "\x1b[32m⏺ "@;
    let e = ")\x1b[0m"@;
    if name == "write"@ {
        g + "Write("@ + shown_file_name(desc) + e
    } else if name == "read"@ {
        g + "Read("@ + shown_file_name(desc) + e
    } else if name == "edit"@ {
        g + "Edit("@ + shown_file_name(desc) + e
    } else if name == "bash"@ {
        match agent_command(encode_utf8(desc)) {
            Some((u, Some(sy))) => g + "Agent(user="@ + u + ", system="@ + sy + e,
            Some((u, None)) => g + "Agent(user="@ + u + e,
            None => if desc.len() == 0 {
                g + "Bash("@ + e
            } else {
                g + "Bash("@ + desc + e
            },
        }
    } else if desc.len() == 0 {
        g + name + "("@ + e
    } else {
        g + name + "("@ + desc + e
    }
}

/// The tools whose results are not shown.
pub open spec fn quiet_tool(name: Option<Seq<char>>) -> bool {
    match name {
        Some(n) => n == "read"@ || n == "write"@ || n == "edit"@,
        None => false,
    }
}

/// The line for a listed session.
pub open spec fn session_line(id: Seq<char>, busy: bool) -> Seq<char> {
    "  \x1b[33m"@ + id + "\x1b[0m  "@ + if busy {
        "busy"@
    } else {
        "idle"@
    }
}

/// The lines for an MCP server: its name and tool count, then one per tool.
pub open spec fn server_lines(name: Seq<char>, tools: Seq<Seq<char>>) -> Seq<Seq<char>> {
    seq!["  \x1b[33m"@ + name + "\x1b[0m ("@ + decimal(tools.len()) + " tools)"@] + tools.map_values(
        |t: Seq<char>| "    - "@ + t,
    )
}

/// The lines for a list of MCP servers, in order.
pub open spec fn servers_lines(ss: Seq<(Seq<char>, Seq<Seq<char>>)>) -> Seq<Seq<char>>
    decreases ss.len(),
{
    if ss.len() == 0 {
        Seq::empty()
    } else {
        servers_lines(ss.drop_last()) + server_lines(ss.last().0, ss.last().1)
    }
}

/// The lines printed for a message, given the last tool called; and the last
/// tool called afterwards.
pub open spec fn rendered(m: AppView, last: Option<Seq<char>>) -> (Seq<Seq<char>>, Option<Seq<char>>) {
    match m {
        AppView::UserMessage(t) => (seq!["\x1b[36m▶ "@ + t + "\x1b[0m"@], last),
        AppView::AssistantLine(l) => (seq![highlight(l, true)], last),
        AppView::ToolCall(n, d) => (seq![tool_call_line(n, d)], Some(n)),
        AppView::ToolResult(p) => (
            if quiet_tool(last) {
                Seq::empty()
            } else {
                seq!["\x1b[33m✓ "@ + p + "\x1b[0m"@]
            },
            last,
        ),
        AppView::AgentError(e) => (seq!["\x1b[31mError: "@ + e + "\x1b[0m"@], last),
        AppView::AgentCompleted => (seq![Seq::empty()], last),
        AppView::SessionList(ss) => (
            seq!["\x1b[1mActive sessions:\x1b[0m"@] + ss.map_values(
                |x: (Seq<char>, bool)| session_line(x.0, x.1),
            ) + seq![Seq::empty()],
            last,
        ),
        AppView::McpList(ss) => (
            if ss.len() == 0 {
                seq!["\x1b[1mNo MCP servers connected.\x1b[0m"@, Seq::empty()]
            } else {
                seq!["\x1b[1mMCP servers:\x1b[0m"@] + servers_lines(ss) + seq![Seq::empty()]
            },
            last,
        ),
        AppView::PeerMessage(f, t) => (seq!["\x1b[35m◀ ["@ + f + "] "@ + t + "\x1b[0m"@], last),
        _ => (Seq::empty(), last),
    }
}

/// The line for a tool call.
pub fn tool_call_text(name: &str, desc: &str) -> (r: String)
    ensures
        r@ == tool_call_line(name@, desc@),
{
    let nc = chars_of(name);
    let mut out = chars_of("\x1b[32m⏺ ");
    let write = chars_of("write");
    let read = chars_of("read");
    let edit = chars_of("edit");
    let bash = chars_of("bash");
    proof {
        reveal_strlit("write");
        reveal_strlit("read");
        reveal_strlit("edit");
        reveal_strlit("bash");
    }
    if slice_eq(nc.as_slice(), write.as_slice()) {
        push_str(&mut out, "Write(");
        push_str(&mut out, file_name_from_path(desc).as_str());
    } else if slice_eq(nc.as_slice(), read.as_slice()) {
        push_str(&mut out, "Read(");
        push_str(&mut out, file_name_from_path(desc).as_str());
    } else if slice_eq(nc.as_slice(), edit.as_slice()) {
        push_str(&mut out, "Edit(");
        push_str(&mut out, file_name_from_path(desc).as_str());
    } else if slice_eq(nc.as_slice(), bash.as_slice()) {
        match parse_mash_agent_command(desc) {
            Some((u, Some(sy))) => {
                push_str(&mut out, "Agent(user=");
                push_str(&mut out, u.as_str());
                push_str(&mut out, ", system=");
                push_str(&mut out, sy.as_str());
            },
            Some((u, None)) => {
                push_str(&mut out, "Agent(user=");
                push_str(&mut out, u.as_str());
            },
            None => {
                push_str(&mut out, "Bash(");
                push_str(&mut out, desc);
            },
        }
    } else {
        push_str(&mut out, name);
        push_str(&mut out, "(");
        push_str(&mut out, desc);
    }
    push_str(&mut out, ")\x1b[0m");
    proof {
        assert(out@ =~= tool_call_line(name@, desc@));
    }
    string_of(out.as_slice())
}

/// The client's transcript: remembers the last tool called, which decides
/// whether a tool result is shown.
#[derive(Debug)]
pub struct Transcript {
    pub last_tool_name: Option<String>,
}

/// Views of an optional string.
pub open spec fn opt_text(o: Option<String>) -> Option<Seq<char>> {
    match o {
        Some(s) => Some(s@),
        None => None,
    }
}

/// Appends a line.
fn push_line(out: &mut Vec<String>, line: Vec<char>)
    ensures
        strings_view(final(out)@) == strings_view(old(out)@).push(line@),
{
    let s = string_of(line.as_slice());
    out.push(s);
    proof {
        assert(strings_view(out@) =~= strings_view(old(out)@).push(line@));
    }
}

impl Transcript {
    /// Nothing shown yet.
    pub fn new() -> (t: Transcript)
        ensures
            t.last_tool_name is None,
    {
        Transcript { last_tool_name: None }
    }

    /// The lines to print for a message.
    pub fn render(&mut self, msg: &AppMessage) -> (r: Vec<String>)
        ensures
            (strings_view(r@), opt_text(final(self).last_tool_name)) == rendered(
                msg@,
                opt_text(old(self).last_tool_name),
            ),
    {
        let mut out: Vec<String> = Vec::new();
        proof {
            assert(strings_view(out@) =~= Seq::<Seq<char>>::empty());
        }
        match msg {
            AppMessage::UserMessage(t) => {
                let mut c = chars_of("\x1b[36m▶ ");
                push_str(&mut c, t.as_str());
                push_str(&mut c, "\x1b[0m");
                push_line(&mut out, c);
            },
            AppMessage::AssistantLine(l) => {
                let h = highlight_inline_code(l.as_str());
                push_line(&mut out, chars_of(h.as_str()));
            },
            AppMessage::ToolCall { name, description } => {
                let line = tool_call_text(name.as_str(), description.as_str());
                push_line(&mut out, chars_of(line.as_str()));
                self.last_tool_name = Some(name.clone());
            },
            AppMessage::ToolResult { preview } => {
                let quiet = match &self.last_tool_name {
                    Some(n) => {
                        let nc = chars_of(n.as_str());
                        let read = chars_of("read");
                        let write = chars_of("write");
                        let edit = chars_of("edit");
                        proof {
                            reveal_strlit("read");
                            reveal_strlit("write");
                            reveal_strlit("edit");
                        }
                        slice_eq(nc.as_slice(), read.as_slice()) || slice_eq(nc.as_slice(), write.as_slice())
                            || slice_eq(nc.as_slice(), edit.as_slice())
                    },
                    None => false,
                };
                if !quiet {
                    let mut c = chars_of("\x1b[33m✓ ");
                    push_str(&mut c, preview.as_str());
                    push_str(&mut c, "\x1b[0m");
                    push_line(&mut out, c);
                }
            },
            AppMessage::AgentError(e) => {
                let mut c = chars_of("\x1b[31mError: ");
                push_str(&mut c, e.as_str());
                push_str(&mut c, "\x1b[0m");
                push_line(&mut out, c);
            },
            AppMessage::AgentCompleted => {
                push_line(&mut out, Vec::new());
            },
            AppMessage::SessionList(sessions) => {
                push_line(&mut out, chars_of("\x1b[1mActive sessions:\x1b[0m"));
                let ghost head = strings_view(out@);
                let ghost sv = sessions_view(sessions@);
                let mut i: usize = 0;
                proof {
                    assert(strings_view(out@) =~= head + sv.take(0).map_values(
                        |x: (Seq<char>, bool)| session_line(x.0, x.1),
                    ));
                }
                while i < sessions.len()
                    invariant
                        i <= sessions@.len(),
                        sv == sessions_view(sessions@),
                        strings_view(out@) == head + sv.take(i as int).map_values(
                            |x: (Seq<char>, bool)| session_line(x.0, x.1),
                        ),
                    decreases sessions@.len() - i,
                {
                    let mut c = chars_of("  \x1b[33m");
                    push_str(&mut c, sessions[i].id.as_str());
                    push_str(&mut c, "\x1b[0m  ");
                    if sessions[i].busy {
                        push_str(&mut c, "busy");
                    } else {
                        push_str(&mut c, "idle");
                    }
                    let ghost line = c@;
                    push_line(&mut out, c);
                    proof {
                        assert(line == session_line(sv[i as int].0, sv[i as int].1));
                        assert(sv.take(i + 1).map_values(|x: (Seq<char>, bool)| session_line(x.0, x.1))
                            =~= sv.take(i as int).map_values(
                            |x: (Seq<char>, bool)| session_line(x.0, x.1),
                        ).push(line));
                    }
                    i = i + 1;
                }
                proof {
                    assert(sv.take(i as int) =~= sv);
                }
                push_line(&mut out, Vec::new());
            },
            AppMessage::McpList(servers) => {
                if servers.len() == 0 {
                    push_line(&mut out, chars_of("\x1b[1mNo MCP servers connected.\x1b[0m"));
                    push_line(&mut out, Vec::new());
                } else {
                    push_line(&mut out, chars_of("\x1b[1mMCP servers:\x1b[0m"));
                    let ghost head = strings_view(out@);
                    let ghost sv = servers_view(servers@);
                    let mut i: usize = 0;
                    proof {
                        assert(sv.take(0) =~= Seq::<(Seq<char>, Seq<Seq<char>>)>::empty());
                        assert(strings_view(out@) =~= head + servers_lines(sv.take(0)));
                    }
                    while i < servers.len()
                        invariant
                            i <= servers@.len(),
                            sv == servers_view(servers@),
                            strings_view(out@) == head + servers_lines(sv.take(i as int)),
                        decreases servers@.len() - i,
                    {
                        let srv = &servers[i];
                        let ghost mid = strings_view(out@);
                        let mut c = chars_of("  \x1b[33m");
                        push_str(&mut c, srv.name.as_str());
                        push_str(&mut c, "\x1b[0m (");
                        push_decimal(&mut c, srv.tools.len() as u128);
                        push_str(&mut c, " tools)");
                        push_line(&mut out, c);
                        let ghost tv = strings_view(srv.tools@);
                        let ghost mid2 = strings_view(out@);
                        let mut k: usize = 0;
                        proof {
                            assert(tv.take(0).map_values(|t: Seq<char>| "    - "@ + t) =~= Seq::<Seq<char>>::empty());
                        }
                        while k < srv.tools.len()
                            invariant
                                k <= srv.tools@.len(),
                                tv == strings_view(srv.tools@),
                                strings_view(out@) == mid2 + tv.take(k as int).map_values(
                                    |t: Seq<char>| "    - "@ + t,
                                ),
                            decreases srv.tools@.len() - k,
                        {
                            let mut c2 = chars_of("    - ");
                            push_str(&mut c2, srv.tools[k].as_str());
                            let ghost line = c2@;
                            push_line(&mut out, c2);
                            proof {
                                assert(tv.take(k + 1).map_values(|t: Seq<char>| "    - "@ + t) =~= tv.take(
                                    k as int,
                                ).map_values(|t: Seq<char>| "    - "@ + t).push(line));
                            }
                            k = k + 1;
                        }
                        proof {
                            assert(tv.take(k as int) =~= tv);
                            assert(sv.take(i + 1).drop_last() =~= sv.take(i as int));
                            assert(sv[i as int] == (srv.name@, tv));
                            assert(strings_view(out@) =~= head + servers_lines(sv.take(i + 1)));
                        }
                        i = i + 1;
                    }
                    proof {
                        assert(sv.take(i as int) =~= sv);
                    }
                    push_line(&mut out, Vec::new());
                }
            },
            AppMessage::PeerMessage { from, text } => {
                let mut c = chars_of("\x1b[35m◀ [");
                push_str(&mut c, from.as_str());
                push_str(&mut c, "] ");
                push_str(&mut c, text.as_str());
                push_str(&mut c, "\x1b[0m");
                push_line(&mut out, c);
            },
            _ => {},
        }
        proof {
            assert(strings_view(out@) =~= rendered(msg@, opt_text(old(self).last_tool_name)).0);
        }
        out
    }
}

/// `a - b`, or 0 where `b` is larger (`usize::saturating_sub`).
pub open spec fn sat_sub(a: nat, b: nat) -> nat {
    if a >= b {
        (a - b) as nat
    } else {
        0
    }
}

/// `s` cut to `max` characters: longer text keeps `max - 1` of them and ends in `…`.
pub open spec fn clip(s: Seq<char>, max: nat) -> Seq<char> {
    if s.len() <= max {
        s
    } else {
        s.take(sat_sub(max, 1) as int) + "…"@
    }
}

/// `n` spaces.
pub open spec fn spaces(n: nat) -> Seq<char> {
    Seq::new(n, |i: int| ' ')
}

/// The label of a tool in the compact transcript: `Bash` for `bash`, else its name.
pub open spec fn call_label(name: Seq<char>) -> Seq<char> {
    if name == "bash"@ {
        "Bash"@
    } else {
        name
    }
}

/// A tool call in the compact transcript, for a terminal `width` columns wide:
/// each line of the description cut to fit after the `⏺ Label(` prefix, the
/// lines after the first indented under it.
pub open spec fn wrapped_call(name: Seq<char>, desc: Seq<char>, width: nat) -> Seq<char> {
    let label = call_label(name);
    if desc.len() == 0 {
        "\x1b[32m⏺ "@ + label + "()\x1b[0m"@
    } else {
        let ls = lines_of(desc);
        let prefix = "⏺ "@ + label + "("@;
        let avail = sat_sub(width, prefix.len() + 1);
        "\x1b[32m"@ + prefix + clip(ls[0], avail) + ls.skip(1).map_values(
            |l: Seq<char>| "\n\x1b[32m"@ + spaces(prefix.len()) + clip(l, avail),
        ).flatten() + ")\x1b[0m"@
    }
}

/// A description that is not empty has at least one line.
pub proof fn lemma_lines_nonempty(s: Seq<char>)
    requires
        s.len() > 0,
    ensures
        lines_of(s).len() >= 1,
{
    lemma_split_on_len(s.drop_last(), '\n');
    lemma_split_on_len(s, '\n');
    assert(s.drop_last() =~= s.take(s.len() - 1));
}

/// The lines printed for a message by the compact transcript, which has no
/// bold markup, shows every tool result, and cuts tool descriptions to a
/// terminal `width` columns wide.
pub open spec fn compact_rendered(m: AppView, width: nat) -> Seq<Seq<char>> {
    match m {
        AppView::AssistantLine(l) => seq![highlight(l, false)],
        AppView::ToolCall(n, d) => seq![wrapped_call(n, d, width)],
        AppView::ToolResult(p) => seq!["\x1b[33m✓ "@ + p + "\x1b[0m"@],
        AppView::McpList(_) => Seq::empty(),
        _ => rendered(m, None).0,
    }
}

/// Executable `clip`.
fn clip_chars(s: &[char], max: usize) -> (r: Vec<char>)
    ensures
        r@ == clip(s@, max as nat),
{
    if s.len() <= max {
        let mut r: Vec<char> = Vec::new();
        push_all(&mut r, s);
        r
    } else {
        let keep: usize = if max >= 1 {
            max - 1
        } else {
            0
        };
        let mut r = slice_range(s, 0, keep);
        push_str(&mut r, "…");
        proof {
            assert(s@.subrange(0, keep as int) =~= s@.take(keep as int));
        }
        r
    }
}

/// The tool-call text of the compact transcript.
pub fn wrapped_call_text(name: &str, desc: &str, width: usize) -> (r: String)
    ensures
        r@ == wrapped_call(name@, desc@, width as nat),
{
    let nc = chars_of(name);
    let bash = chars_of("bash");
    proof {
        reveal_strlit("bash");
    }
    let label = if slice_eq(nc.as_slice(), bash.as_slice()) {
        chars_of("Bash")
    } else {
        nc
    };
    let dc = chars_of(desc);
    if dc.len() == 0 {
        let mut out = chars_of("\x1b[32m⏺ ");
        push_all(&mut out, label.as_slice());
        push_str(&mut out, "()\x1b[0m");
        return string_of(out.as_slice());
    }
    proof {
        lemma_lines_nonempty(desc@);
    }
    let ls = lines(dc.as_slice());
    let mut prefix = chars_of("⏺ ");
    push_all(&mut prefix, label.as_slice());
    push_str(&mut prefix, "(");
    let indent = prefix.len();
    let avail: usize = if width > indent {
        width - indent - 1
    } else {
        0
    };
    let mut pad: Vec<char> = Vec::new();
    let mut k: usize = 0;
    while k < indent
        invariant
            k <= indent,
            pad@ == spaces(k as nat),
        decreases indent - k,
    {
        pad.push(' ');
        proof {
            assert(pad@ =~= spaces((k + 1) as nat));
        }
        k = k + 1;
    }
    let ghost ld = lines_of(desc@);
    let ghost g = |l: Seq<char>| "\n\x1b[32m"@ + spaces(prefix@.len()) + clip(l, avail as nat);
    let mut out = chars_of("\x1b[32m");
    push_all(&mut out, prefix.as_slice());
    let first = clip_chars(ls[0].as_slice(), avail);
    push_all(&mut out, first.as_slice());
    let ghost head = out@;
    let mut j: usize = 1;
    proof {
        assert(ld.subrange(1, 1).map_values(g) =~= Seq::<Seq<char>>::empty());
        assert(out@ =~= head + ld.subrange(1, 1).map_values(g).flatten());
    }
    while j < ls.len()
        invariant
            1 <= j <= ls@.len(),
            ls@.len() == ld.len(),
            forall|x: int| 0 <= x < ls@.len() ==> #[trigger] ls@[x]@ == ld[x],
            pad@ == spaces(prefix@.len()),
            g == (|l: Seq<char>| "\n\x1b[32m"@ + spaces(prefix@.len()) + clip(l, avail as nat)),
            out@ == head + ld.subrange(1, j as int).map_values(g).flatten(),
        decreases ls@.len() - j,
    {
        let ghost before = out@;
        push_str(&mut out, "\n\x1b[32m");
        push_all(&mut out, pad.as_slice());
        let piece = clip_chars(ls[j].as_slice(), avail);
        push_all(&mut out, piece.as_slice());
        proof {
            let prev = ld.subrange(1, j as int).map_values(g);
            assert(ld.subrange(1, j + 1).map_values(g) =~= prev.push(g(ld[j as int])));
            prev.lemma_flatten_push(g(ld[j as int]));
            assert(out@ =~= before + g(ld[j as int]));
        }
        j = j + 1;
    }
    push_str(&mut out, ")\x1b[0m");
    proof {
        assert(ld.subrange(1, j as int) =~= ld.skip(1));
        assert(out@ =~= wrapped_call(name@, desc@, width as nat));
    }
    string_of(out.as_slice())
}

/// The lines the compact transcript prints for a message.
pub fn compact_lines(msg: &AppMessage, width: usize) -> (r: Vec<String>)
    ensures
        strings_view(r@) == compact_rendered(msg@, width as nat),
{
    match msg {
        AppMessage::AssistantLine(l) => {
            let mut out: Vec<String> = Vec::new();
            out.push(highlight_code_spans(l.as_str()));
            proof {
                assert(strings_view(out@) =~= compact_rendered(msg@, width as nat));
            }
            out
        },
        AppMessage::ToolCall { name, description } => {
            let mut out: Vec<String> = Vec::new();
            out.push(wrapped_call_text(name.as_str(), description.as_str(), width));
            proof {
                assert(strings_view(out@) =~= compact_rendered(msg@, width as nat));
            }
            out
        },
        AppMessage::ToolResult { preview } => {
            let mut c = chars_of("\x1b[33m✓ ");
            push_str(&mut c, preview.as_str());
            push_str(&mut c, "\x1b[0m");
            let mut out: Vec<String> = Vec::new();
            push_line(&mut out, c);
            proof {
                assert(strings_view(out@) =~= compact_rendered(msg@, width as nat));
            }
            out
        },
        AppMessage::McpList(_) => {
            let out: Vec<String> = Vec::new();
            proof {
                assert(strings_view(out@) =~= compact_rendered(msg@, width as nat));
            }
            out
        },
        _ => {
            let mut t = Transcript::new();
            t.render(msg)
        },
    }
}

/// A command of the slash menu.
#[derive(Debug)]
pub struct SlashCommand {
    pub name: String,
    pub description: String,
    pub builtin: bool,
}

/// The content of a slash command: name, description, built in or a skill.
pub type CommandView = (Seq<char>, Seq<char>, bool);

/// Views of a list of slash commands.
pub open spec fn commands_view(v: Seq<SlashCommand>) -> Seq<CommandView> {
    v.map_values(|c: SlashCommand| (c.name@, c.description@, c.builtin))
}

/// The built-in commands, then one command per skill.
pub open spec fn menu_commands(skills: Seq<(Seq<char>, Seq<char>)>) -> Seq<CommandView> {
    seq![
        ("new"@, "清空上下文，开始新对话"@, true),
        ("sessions"@, "列出所有活跃会话"@, true),
        ("msg"@, "向其他会话发送消息 /msg <id> <text>"@, true),
    ] + skills.map_values(|k: (Seq<char>, Seq<char>)| (k.0, k.1, false))
}

/// Views of skills: name and description.
pub open spec fn skills_view(v: Seq<SkillEntry>) -> Seq<(Seq<char>, Seq<char>)> {
    v.map_values(|k: SkillEntry| (k.name@, k.description@))
}

/// The commands of the slash menu for the daemon's skills.
pub fn build_commands(skills: &Vec<SkillEntry>) -> (r: Vec<SlashCommand>)
    ensures
        commands_view(r@) == menu_commands(skills_view(skills@)),
{
    let mut r: Vec<SlashCommand> = Vec::new();
    r.push(SlashCommand { name: "new".to_owned(), description: "清空上下文，开始新对话".to_owned(), builtin: true });
    r.push(SlashCommand { name: "sessions".to_owned(), description: "列出所有活跃会话".to_owned(), builtin: true });
    r.push(
        SlashCommand {
            name: "msg".to_owned(),
            description: "向其他会话发送消息 /msg <id> <text>".to_owned(),
            builtin: true,
        },
    );
    let ghost head = commands_view(r@);
    let ghost kv = skills_view(skills@);
    let mut i: usize = 0;
    proof {
        assert(commands_view(r@) =~= head + kv.take(0).map_values(
            |k: (Seq<char>, Seq<char>)| (k.0, k.1, false),
        ));
    }
    while i < skills.len()
        invariant
            i <= skills@.len(),
            kv == skills_view(skills@),
            commands_view(r@) == head + kv.take(i as int).map_values(
                |k: (Seq<char>, Seq<char>)| (k.0, k.1, false),
            ),
        decreases skills@.len() - i,
    {
        let c = SlashCommand {
            name: skills[i].name.clone(),
            description: skills[i].description.clone(),
            builtin: false,
        };
        let ghost before = r@;
        r.push(c);
        proof {
            assert(commands_view(r@) =~= commands_view(before).push((c.name@, c.description@, false)));
            assert(kv.take(i + 1).map_values(|k: (Seq<char>, Seq<char>)| (k.0, k.1, false)) =~= kv.take(
                i as int,
            ).map_values(|k: (Seq<char>, Seq<char>)| (k.0, k.1, false)).push((kv[i as int].0, kv[i as int].1, false)));
        }
        i = i + 1;
    }
    proof {
        assert(kv.take(i as int) =~= kv);
        assert(commands_view(r@) =~= menu_commands(kv));
    }
    r
}

/// The text in lower case, as `str::to_lowercase` makes it.
pub uninterp spec fn lowercase_of(s: Seq<char>) -> Seq<char>;

/// `str::to_lowercase`.
#[verifier::external_body]
pub(crate) fn to_lowercase(s: &str) -> (r: String)
    ensures
        r@ == lowercase_of(s@),
{
    s.to_lowercase()
}

/// The commands shown for a query: all of them for an empty query, else those
/// whose name contains the query, ignoring case, in order.
pub open spec fn filtered(cmds: Seq<CommandView>, query: Seq<char>) -> Seq<CommandView>
    decreases cmds.len(),
{
    if query.len() == 0 || cmds.len() == 0 {
        cmds
    } else {
        let r = filtered(cmds.drop_last(), query);
        if contains(lowercase_of(cmds.last().0), lowercase_of(query)) {
            r.push(cmds.last())
        } else {
            r
        }
    }
}

/// A copy of a slash command.
fn copy_command(c: &SlashCommand) -> (r: SlashCommand)
    ensures
        (r.name@, r.description@, r.builtin) == (c.name@, c.description@, c.builtin),
{
    SlashCommand { name: c.name.clone(), description: c.description.clone(), builtin: c.builtin }
}

/// The commands of the menu that match a query.
pub fn filter_commands(commands: &Vec<SlashCommand>, query: &str) -> (r: Vec<SlashCommand>)
    ensures
        commands_view(r@) == filtered(commands_view(commands@), query@),
{
    let ghost cv = commands_view(commands@);
    let mut r: Vec<SlashCommand> = Vec::new();
    let mut i: usize = 0;
    let empty = query.unicode_len() == 0;
    let q = to_lowercase(query);
    let qc = chars_of(q.as_str());
    proof {
        assert(cv.take(0) =~= Seq::<CommandView>::empty());
        assert(commands_view(r@) =~= Seq::<CommandView>::empty());
        if empty {
            assert(filtered(cv.take(0), query@) =~= Seq::<CommandView>::empty());
        }
    }
    while i < commands.len()
        invariant
            i <= commands@.len(),
            cv == commands_view(commands@),
            empty == (query@.len() == 0),
            qc@ == lowercase_of(query@),
            commands_view(r@) == filtered(cv.take(i as int), query@),
        decreases commands@.len() - i,
    {
        proof {
            assert(cv.take(i + 1).drop_last() =~= cv.take(i as int));
            assert(cv.take(i + 1).last() == cv[i as int]);
        }
        let keep = if empty {
            true
        } else {
            let nl = to_lowercase(commands[i].name.as_str());
            let nc = chars_of(nl.as_str());
            contains_chars(nc.as_slice(), qc.as_slice())
        };
        if keep {
            let c = copy_command(&commands[i]);
            let ghost before = r@;
            r.push(c);
            proof {
                assert(commands_view(r@) =~= commands_view(before).push(cv[i as int]));
                if empty {
                    assert(filtered(cv.take(i + 1), query@) == cv.take(i + 1));
                    assert(filtered(cv.take(i as int), query@) == cv.take(i as int));
                    assert(cv.take(i + 1) =~= cv.take(i as int).push(cv[i as int]));
                }
            }
        } else {
            proof {
                if empty {
                    assert(false);
                }
            }
        }
        i = i + 1;
    }
    proof {
        assert(cv.take(i as int) =~= cv);
    }
    r
}

/// A built-in command typed in full: `/new`, `/sessions`, or
/// `/msg <session> <text>`; gives the line echoed and the request to send.
pub open spec fn builtin_command(text: Seq<char>) -> Option<(Seq<char>, ClientView)> {
    let t = trim(text);
    if t == "/new"@ {
        Some(("/new"@, ClientView::ClearHistory))
    } else if t == "/sessions"@ {
        Some(("/sessions"@, ClientView::ListSessions))
    } else {
        match after_prefix(t, "/msg "@) {
            Some(rest0) => {
                let rest = trim(rest0);
                match find(rest, " "@) {
                    Some(sp) => {
                        let target = rest.take(sp);
                        let msg = trim(rest.skip(sp + 1));
                        if target.len() > 0 && msg.len() > 0 {
                            Some(
                                (
                                    "/msg "@ + target + " "@ + msg,
                                    ClientView::SendToSession(target, msg, None),
                                ),
                            )
                        } else {
                            None
                        }
                    },
                    None => None,
                }
            },
            None => None,
        }
    }
}

/// What the client does in answer to input: show a message, or send one.
#[derive(Debug)]
pub enum UiAction {
    Show(AppMessage),
    Send(ClientMessage),
}

/// The content of a client action.
pub ghost enum ActionView {
    Show(AppView),
    Send(ClientView),
}

impl View for UiAction {
    type V = ActionView;

    open spec fn view(&self) -> ActionView {
        match self {
            UiAction::Show(m) => ActionView::Show(m@),
            UiAction::Send(m) => ActionView::Send(m@),
        }
    }
}

/// Views of a list of actions.
pub open spec fn actions_view(v: Seq<UiAction>) -> Seq<ActionView> {
    v.map_values(|a: UiAction| a@)
}

/// Echo a line and send a request.
pub open spec fn echo_send(line: Seq<char>, m: ClientView) -> Seq<ActionView> {
    seq![ActionView::Show(AppView::UserMessage(line)), ActionView::Send(m)]
}

/// The actions for a built-in command, if the text is one.
pub open spec fn builtin_actions(text: Seq<char>) -> Seq<ActionView> {
    match builtin_command(text) {
        Some((l, m)) => echo_send(l, m),
        None => Seq::empty(),
    }
}

/// The actions for submitted text: a built-in command, or a user message.
pub open spec fn submit_actions(text: Seq<char>) -> Seq<ActionView> {
    match builtin_command(text) {
        Some((l, m)) => echo_send(l, m),
        None => echo_send(text, ClientView::SendMessage(text, None)),
    }
}

/// Recognises a built-in command.
pub fn try_builtin(text: &str) -> (r: Option<(String, ClientMessage)>)
    ensures
        r is Some <==> builtin_command(text@) is Some,
        r matches Some(p) ==> p.0@ == builtin_command(text@).unwrap().0 && p.1@ == builtin_command(
            text@,
        ).unwrap().1,
{
    let cs = chars_of(text);
    let t = trim_chars(cs.as_slice());
    let new_cmd = chars_of("/new");
    let sessions_cmd = chars_of("/sessions");
    let msg_prefix = chars_of("/msg ");
    let space = chars_of(" ");
    proof {
        reveal_strlit("/new");
        reveal_strlit("/sessions");
        reveal_strlit("/msg ");
        reveal_strlit(" ");
    }
    if slice_eq(t.as_slice(), new_cmd.as_slice()) {
        return Some(("/new".to_owned(), ClientMessage::ClearHistory));
    }
    if slice_eq(t.as_slice(), sessions_cmd.as_slice()) {
        return Some(("/sessions".to_owned(), ClientMessage::ListSessions));
    }
    let rest0 = match strip_prefix_chars(t.as_slice(), msg_prefix.as_slice()) {
        Some(r) => r,
        None => {
            return None;
        },
    };
    let rest = trim_chars(rest0.as_slice());
    proof {
        lemma_find_from(rest@, space@, 0);
    }
    let sp = match find_chars(rest.as_slice(), space.as_slice()) {
        Some(k) => k,
        None => {
            return None;
        },
    };
    let n = rest.len();
    let target = slice_range(rest.as_slice(), 0, sp);
    let after = slice_range(rest.as_slice(), sp + 1, n);
    let msg = trim_chars(after.as_slice());
    proof {
        assert(target@ =~= rest@.take(sp as int));
        assert(after@ =~= rest@.skip(sp + 1));
    }
    if target.len() > 0 && msg.len() > 0 {
        let mut line = chars_of("/msg ");
        push_all(&mut line, target.as_slice());
        push_str(&mut line, " ");
        push_all(&mut line, msg.as_slice());
        proof {
            assert(line@ =~= "/msg "@ + target@ + " "@ + msg@);
        }
        Some(
            (
                string_of(line.as_slice()),
                ClientMessage::SendToSession {
                    target: string_of(target.as_slice()),
                    text: string_of(msg.as_slice()),
                    from: None,
                },
            ),
        )
    } else {
        None
    }
}

/// Appends the echo of a line and the request to send.
fn push_echo_send(out: &mut Vec<UiAction>, line: String, m: ClientMessage)
    ensures
        actions_view(final(out)@) == actions_view(old(out)@) + echo_send(line@, m@),
{
    let a = UiAction::Show(AppMessage::UserMessage(line));
    let b = UiAction::Send(m);
    let ghost av = a@;
    let ghost bv = b@;
    out.push(a);
    out.push(b);
    proof {
        assert(actions_view(out@) =~= actions_view(old(out)@) + seq![av, bv]);
    }
}

/// The actions for submitted text.
pub fn submit(text: &str) -> (r: Vec<UiAction>)
    ensures
        actions_view(r@) == submit_actions(text@),
{
    let mut out: Vec<UiAction> = Vec::new();
    proof {
        assert(actions_view(out@) =~= Seq::<ActionView>::empty());
    }
    match try_builtin(text) {
        Some((l, m)) => {
            push_echo_send(&mut out, l, m);
        },
        None => {
            push_echo_send(
                &mut out,
                text.to_owned(),
                ClientMessage::SendMessage { text: text.to_owned(), system_extra: None },
            );
        },
    }
    proof {
        assert(actions_view(out@) =~= submit_actions(text@));
    }
    out
}

/// A key press in the input line.
#[derive(Debug)]
pub enum Key {
    Up,
    Down,
    Tab,
    Esc,
    Enter { shift: bool },
    Char(char),
    Backspace,
    Other,
}

/// The input line is a slash command being chosen: it starts with `/` and has
/// no space yet.
pub open spec fn in_menu(buf: Seq<char>) -> bool {
    buf.len() > 0 && buf[0] == '/' && !contains(buf.skip(1), " "@)
}

/// The first command with the given name.
pub open spec fn first_named(f: Seq<CommandView>, name: Seq<char>) -> Option<CommandView>
    decreases f.len(),
{
    if f.len() == 0 {
        None
    } else if f[0].0 == name {
        Some(f[0])
    } else {
        first_named(f.skip(1), name)
    }
}

/// The text of the input line, the selected menu entry, and the actions, after
/// a key press.
pub open spec fn key_step(buf: Seq<char>, idx: nat, key: Key, cmds: Seq<CommandView>) -> (
    Seq<char>,
    nat,
    Seq<ActionView>,
) {
    let menu = in_menu(buf);
    let q = buf.skip(1);
    let f = filtered(cmds, q);
    match key {
        Key::Up => if menu && idx > 0 {
            (buf, (idx - 1) as nat, Seq::empty())
        } else {
            (buf, idx, Seq::empty())
        },
        Key::Down => if menu && idx + 1 < f.len() {
            (buf, idx + 1, Seq::empty())
        } else {
            (buf, idx, Seq::empty())
        },
        Key::Tab => if menu && idx < f.len() {
            (seq!['/'] + f[idx as int].0, idx, Seq::empty())
        } else {
            (buf, idx, Seq::empty())
        },
        Key::Esc => if menu {
            (Seq::empty(), 0, Seq::empty())
        } else {
            (buf, idx, Seq::empty())
        },
        Key::Enter { shift } => if menu {
            let sel = if idx < f.len() {
                Some(f[idx as int])
            } else {
                first_named(f, q)
            };
            match sel {
                Some(c) => if c.2 {
                    if c.0 == "msg"@ {
                        ("/msg "@, 0, Seq::empty())
                    } else {
                        (Seq::empty(), 0, builtin_actions(seq!['/'] + c.0))
                    }
                } else {
                    (
                        Seq::empty(),
                        0,
                        echo_send(
                            seq!['/'] + c.0,
                            ClientView::SendMessage(seq!['/'] + c.0, None),
                        ),
                    )
                },
                None => (buf, idx, Seq::empty()),
            }
        } else if shift {
            (buf.push('\n'), idx, Seq::empty())
        } else if trim(buf).len() > 0 {
            (Seq::empty(), idx, submit_actions(trim(buf)))
        } else {
            (buf, idx, Seq::empty())
        },
        Key::Char(c) => {
            let b = buf.push(c);
            (b, if b[0] == '/' { 0 } else { idx }, Seq::empty())
        },
        Key::Backspace => {
            let b = if buf.len() > 0 {
                buf.drop_last()
            } else {
                buf
            };
            (b, if b.len() > 0 && b[0] == '/' { 0 } else { idx }, Seq::empty())
        },
        Key::Other => (buf, idx, Seq::empty()),
    }
}

/// The input line and the selected entry of the slash menu.
#[derive(Debug)]
pub struct InputState {
    pub buf: String,
    pub menu_index: usize,
}

/// Executable `in_menu`.
fn is_in_menu(b: &[char]) -> (r: bool)
    ensures
        r == in_menu(b@),
{
    let space = chars_of(" ");
    proof {
        reveal_strlit(" ");
    }
    let n = b.len();
    if n == 0 || b[0] != '/' {
        return false;
    }
    let q = slice_range(b, 1, n);
    proof {
        assert(q@ =~= b@.skip(1));
    }
    !contains_chars(q.as_slice(), space.as_slice())
}

/// The first command with the given name, by position.
fn first_named_index(f: &Vec<SlashCommand>, name: &[char]) -> (r: Option<usize>)
    ensures
        match first_named(commands_view(f@), name@) {
            Some(c) => r matches Some(k) && k < f@.len() && commands_view(f@)[k as int] == c,
            None => r is None,
        },
{
    let ghost fv = commands_view(f@);
    let mut k: usize = 0;
    proof {
        assert(fv.skip(0) =~= fv);
    }
    while k < f.len()
        invariant
            k <= f@.len(),
            fv == commands_view(f@),
            first_named(fv, name@) == first_named(fv.skip(k as int), name@),
        decreases f@.len() - k,
    {
        let nc = chars_of(f[k].name.as_str());
        proof {
            assert(fv.skip(k as int)[0] == fv[k as int]);
            assert(fv.skip(k as int).skip(1) =~= fv.skip(k + 1));
        }
        if slice_eq(nc.as_slice(), name) {
            return Some(k);
        }
        k = k + 1;
    }
    proof {
        assert(fv.skip(k as int).len() == 0);
    }
    None
}

impl InputState {
    /// An empty input line.
    pub fn new() -> (s: InputState)
        ensures
            s.buf@ == Seq::<char>::empty(),
            s.menu_index == 0,
    {
        InputState { buf: String::new(), menu_index: 0 }
    }

    /// Handles a key press; gives what to show and send.
    pub fn on_key(&mut self, key: Key, commands: &Vec<SlashCommand>) -> (r: Vec<UiAction>)
        requires
            old(self).menu_index < usize::MAX,
        ensures
            (final(self).buf@, final(self).menu_index as nat, actions_view(r@)) == key_step(
                old(self).buf@,
                old(self).menu_index as nat,
                key,
                commands_view(commands@),
            ),
    {
        let ghost cv = commands_view(commands@);
        let b = chars_of(self.buf.as_str());
        let menu = is_in_menu(b.as_slice());
        let n = b.len();
        let query: Vec<char> = if n > 0 {
            slice_range(b.as_slice(), 1, n)
        } else {
            Vec::new()
        };
        proof {
            if n > 0 {
                assert(query@ =~= b@.skip(1));
            }
        }
        let qs = string_of(query.as_slice());
        let idx = self.menu_index;
        let mut out: Vec<UiAction> = Vec::new();
        proof {
            assert(actions_view(out@) =~= Seq::<ActionView>::empty());
        }
        let ghost ks = key_step(old(self).buf@, idx as nat, key, cv);
        match key {
            Key::Up => {
                if menu && idx > 0 {
                    self.menu_index = idx - 1;
                }
                proof {
                    assert((self.buf@, self.menu_index as nat, actions_view(out@)) == ks);
                }
            },
            Key::Down => {
                if menu {
                    let f = filter_commands(commands, qs.as_str());
                    if idx + 1 < f.len() {
                        self.menu_index = idx + 1;
                    }
                }
                proof {
                    assert((self.buf@, self.menu_index as nat, actions_view(out@)) == ks);
                }
            },
            Key::Tab => {
                if menu {
                    let f = filter_commands(commands, qs.as_str());
                    if idx < f.len() {
                        let mut nb = chars_of("/");
                        proof {
                            reveal_strlit("/");
                        }
                        push_str(&mut nb, f[idx].name.as_str());
                        self.buf = string_of(nb.as_slice());
                    }
                }
                proof {
                    assert((self.buf@, self.menu_index as nat, actions_view(out@)) == ks);
                }
            },
            Key::Esc => {
                if menu {
                    self.buf = String::new();
                    self.menu_index = 0;
                }
                proof {
                    assert((self.buf@, self.menu_index as nat, actions_view(out@)) == ks);
                }
            },
            Key::Enter { shift } => {
                if menu {
                    let f = filter_commands(commands, qs.as_str());
                    let pos = if idx < f.len() {
                        Some(idx)
                    } else {
                        first_named_index(&f, query.as_slice())
                    };
                    match pos {
                        Some(k) => {
                            proof {
                                let fv = commands_view(f@);
                                let sel = if idx < fv.len() {
                                    Some(fv[idx as int])
                                } else {
                                    first_named(fv, query@)
                                };
                                assert(sel == Some(fv[k as int]));
                            }
                            let mut text = chars_of("/");
                            proof {
                                reveal_strlit("/");
                                reveal_strlit("msg");
                            }
                            push_str(&mut text, f[k].name.as_str());
                            let ts = string_of(text.as_slice());
                            proof {
                                assert("/"@ =~= seq!['/']);
                                assert(ts@ == seq!['/'] + commands_view(f@)[k as int].0);
                            }
                            if f[k].builtin {
                                let nc = chars_of(f[k].name.as_str());
                                let msg = chars_of("msg");
                                if slice_eq(nc.as_slice(), msg.as_slice()) {
                                    self.buf = "/msg ".to_owned();
                                    self.menu_index = 0;
                                } else {
                                    self.buf = String::new();
                                    self.menu_index = 0;
                                    match try_builtin(ts.as_str()) {
                                        Some((l, m)) => {
                                            push_echo_send(&mut out, l, m);
                                        },
                                        None => {},
                                    }
                                }
                            } else {
                                self.buf = String::new();
                                self.menu_index = 0;
                                let ts2 = string_of(text.as_slice());
                                push_echo_send(
                                    &mut out,
                                    ts2,
                                    ClientMessage::SendMessage { text: ts, system_extra: None },
                                );
                            }
                        },
                        None => {},
                    }
                } else if shift {
                    let mut nb = b;
                    nb.push('\n');
                    self.buf = string_of(nb.as_slice());
                } else {
                    let t = trim_chars(b.as_slice());
                    if t.len() > 0 {
                        self.buf = String::new();
                        out = submit(string_of(t.as_slice()).as_str());
                    }
                }
                proof {
                    assert((self.buf@, self.menu_index as nat, actions_view(out@)) == ks);
                }
            },
            Key::Char(c) => {
                let mut nb = b;
                nb.push(c);
                if nb[0] == '/' {
                    self.menu_index = 0;
                }
                self.buf = string_of(nb.as_slice());
                proof {
                    assert((self.buf@, self.menu_index as nat, actions_view(out@)) == ks);
                }
            },
            Key::Backspace => {
                let mut nb = b;
                if nb.len() > 0 {
                    nb.pop();
                }
                proof {
                    assert(nb@ =~= if b@.len() > 0 { b@.drop_last() } else { b@ });
                }
                if nb.len() > 0 && nb[0] == '/' {
                    self.menu_index = 0;
                }
                self.buf = string_of(nb.as_slice());
                proof {
                    assert((self.buf@, self.menu_index as nat, actions_view(out@)) == ks);
                }
            },
            Key::Other => {},
        }
        out
    }
}

/// The text of a menu entry.
pub open spec fn label_text(name: Seq<char>, desc: Seq<char>) -> Seq<char> {
    " /"@ + name + "  "@ + desc
}

/// `c` characters of `l` are the longest prefix that starts within `max` bytes
/// without being the whole text.
pub open spec fn cut_at(l: Seq<char>, max: nat, c: nat) -> bool {
    c < l.len() && utf8_len(l.take(c as int)) <= max && utf8_len(l.take(c + 1 as int)) > max
}

/// `r` shows `l` within `m` bytes: whole when it fits, else cut with `…` at
/// the last character that starts within `m` bytes.
pub open spec fn shown_label(l: Seq<char>, m: nat, r: Seq<char>) -> bool {
    &&& utf8_len(l) <= m ==> r == l
    &&& utf8_len(l) > m ==> exists|c: nat| #[trigger] cut_at(l, m, c) && r == l.take(c as int) + "…"@
}

/// The text of a menu entry for a terminal `width` columns wide: cut, with
/// `…`, to the last character that starts within `width - 8` bytes.
pub fn menu_label(name: &str, desc: &str, width: u16) -> (r: String)
    ensures
        shown_label(label_text(name@, desc@), if width >= 8 {
            (width - 8) as nat
        } else {
            0
        }, r@),
{
    let mut l = chars_of(" /");
    push_str(&mut l, name);
    push_str(&mut l, "  ");
    push_str(&mut l, desc);
    let m: u16 = if width >= 8 {
        width - 8
    } else {
        0
    };
    let c = byte_prefix_chars(l.as_slice(), m as u128);
    proof {
        assert(l@ =~= label_text(name@, desc@));
        assert(l@.take(l@.len() as int) =~= l@);
    }
    if c == l.len() {
        return string_of(l.as_slice());
    }
    let mut cut = slice_range(l.as_slice(), 0, c);
    push_str(&mut cut, "…");
    proof {
        assert(cut@ =~= l@.take(c as int) + "…"@);
        assert(cut_at(l@, m as nat, c as nat));
        lemma_prefix_bytes_le(l@, c + 1);
        assert(shown_label(l@, m as nat, cut@));
    }
    string_of(cut.as_slice())
}

/// The input line as shown: its text followed by the cursor.
pub fn input_display(buf: &str) -> (r: String)
    ensures
        r@ == buf@ + "│"@,
{
    let mut c = chars_of(buf);
    push_str(&mut c, "│");
    string_of(c.as_slice())
}

/// The width of the input box for a terminal `width` columns wide.
pub fn input_width(width: u16) -> (r: u16)
    ensures
        r == if width > 6 {
            (width - 4) as u16
        } else {
            76u16
        },
{
    if width > 6 {
        width - 4
    } else {
        76
    }
}

/// The header printed when the client starts.
pub open spec fn header_lines(session_id: Seq<char>) -> Seq<Seq<char>> {
    seq![
        "\x1b[1;34mmash\x1b[0m  \x1b[2msession "@ + session_id + "\x1b[0m"@,
        "Enter 发送 · Shift+Enter 换行 · /sessions 列表 · /msg <id> 发消息"@,
        Seq::empty(),
    ]
}

/// The lines of the client's header.
pub fn header(session_id: &str) -> (r: Vec<String>)
    ensures
        strings_view(r@) == header_lines(session_id@),
{
    let mut out: Vec<String> = Vec::new();
    proof {
        assert(strings_view(out@) =~= Seq::<Seq<char>>::empty());
    }
    let mut c = chars_of("\x1b[1;34mmash\x1b[0m  \x1b[2msession ");
    push_str(&mut c, session_id);
    push_str(&mut c, "\x1b[0m");
    push_line(&mut out, c);
    push_line(&mut out, chars_of("Enter 发送 · Shift+Enter 换行 · /sessions 列表 · /msg <id> 发消息"));
    push_line(&mut out, Vec::new());
    proof {
        assert(strings_view(out@) =~= header_lines(session_id@));
    }
    out
}

/// The daemon speaks another protocol version than the client.
#[derive(Debug)]
pub struct VersionMismatch {
    pub daemon: u32,
    pub client: u32,
}

impl VersionMismatch {
    /// The error's message.
    pub fn message(&self) -> (r: String)
        ensures
            r@ == "protocol mismatch: daemon="@ + decimal(self.daemon as nat) + ", client="@ + decimal(
                self.client as nat,
            ),
    {
        let mut c = chars_of("protocol mismatch: daemon=");
        push_decimal(&mut c, self.daemon as u128);
        push_str(&mut c, ", client=");
        push_decimal(&mut c, self.client as u128);
        string_of(c.as_slice())
    }
}

/// Eight lower-case hexadecimal digits of a 32-bit number (`{:08x}`).
pub open spec fn hex8(n: u32) -> Seq<char> {
    hex4((n >> 16u32) as u16) + hex4((n & 0xFFFFu32) as u16)
}

/// What the client takes from the daemon's first message: the session id
/// (made from the process id when the daemon gives none), the skills, and
/// whether the session is busy. Another protocol version is an error; a first
/// message other than `Welcome` gives no skills and an idle session.
pub fn welcome_session(msg: DaemonMessage, client_version: u32, pid: u32) -> (r: Result<
    (String, Vec<SkillEntry>, bool),
    VersionMismatch,
>)
    ensures
        match msg {
            DaemonMessage::Welcome { version, session_id, skills, busy } => if version != client_version {
                r matches Err(e) && e.daemon == version && e.client == client_version
            } else {
                r matches Ok((sid, sk, b)) && sid@ == (if session_id@.len() > 0 {
                    session_id@
                } else {
                    hex8(pid)
                }) && skills_view(sk@) == skills_view(skills@) && b == busy
            },
            _ => r matches Ok((sid, sk, b)) && sid@ == hex8(pid) && sk@.len() == 0 && !b,
        },
{
    let (sid, skills, busy) = match msg {
        DaemonMessage::Welcome { version, session_id, skills, busy } => {
            if version != client_version {
                return Err(VersionMismatch { daemon: version, client: client_version });
            }
            (session_id, skills, busy)
        },
        _ => (String::new(), Vec::new(), false),
    };
    let sid = if sid.as_str().unicode_len() > 0 {
        sid
    } else {
        let mut c: Vec<char> = Vec::new();
        push_hex4(&mut c, (pid >> 16u32) as u16);
        push_hex4(&mut c, (pid & 0xFFFFu32) as u16);
        proof {
            assert(c@ =~= hex8(pid));
        }
        string_of(c.as_slice())
    };
    Ok((sid, skills, busy))
}

/// A character repeated `n` times.
pub open spec fn repeat(c: char, n: nat) -> Seq<char> {
    Seq::new(n, |i: int| c)
}

/// Appends a character `n` times.
fn push_repeat(out: &mut Vec<char>, c: char, n: usize)
    ensures
        final(out)@ == old(out)@ + repeat(c, n as nat),
{
    let mut k: usize = 0;
    while k < n
        invariant
            k <= n,
            out@ == old(out)@ + repeat(c, k as nat),
        decreases n - k,
    {
        out.push(c);
        proof {
            assert(out@ =~= old(out)@ + repeat(c, (k + 1) as nat));
        }
        k = k + 1;
    }
}

/// The filled cells of the ten-cell progress bar.
pub open spec fn filled_cells(done: nat, total: nat) -> nat {
    if total == 0 {
        0
    } else {
        (done * 10) / total
    }
}

/// The task progress shown on the status line: counts and a ten-cell bar, or
/// nothing without a summary.
pub open spec fn progress_text(summary: Option<(nat, nat)>) -> Seq<char> {
    match summary {
        Some((d, t)) => " ┃ 📋 "@ + decimal(d) + "/"@ + decimal(t) + " ["@ + repeat(
            '█',
            filled_cells(d, t),
        ) + repeat('░', (10 - filled_cells(d, t)) as nat) + "]"@,
        None => Seq::empty(),
    }
}

/// A summary the progress bar can show: no more done than there are tasks.
pub open spec fn summary_ok(summary: Option<(usize, usize)>) -> bool {
    match summary {
        Some((d, t)) => d <= t && d * 10 <= usize::MAX,
        None => true,
    }
}

/// Executable `summary_ok`: whether the progress bar can show the summary.
pub fn summary_fits(summary: Option<(usize, usize)>) -> (b: bool)
    ensures
        b == summary_ok(summary),
{
    match summary {
        Some((d, t)) => d <= t && d <= usize::MAX / 10,
        None => true,
    }
}

/// Views of an optional summary.
pub open spec fn summary_view(summary: Option<(usize, usize)>) -> Option<(nat, nat)> {
    match summary {
        Some((d, t)) => Some((d as nat, t as nat)),
        None => None,
    }
}

/// The task progress text for the status line.
pub fn progress(summary: Option<(usize, usize)>) -> (r: String)
    requires
        summary_ok(summary),
    ensures
        r@ == progress_text(summary_view(summary)),
{
    match summary {
        Some((done, total)) => {
            let filled: usize = if total == 0 {
                0
            } else {
                (done * 10) / total
            };
            proof {
                if total > 0 {
                    assert((done * 10) / (total as int) <= 10) by (nonlinear_arith)
                        requires
                            done <= total,
                            total > 0,
                    ;
                }
            }
            let mut c = chars_of(" ┃ 📋 ");
            push_decimal(&mut c, done as u128);
            push_str(&mut c, "/");
            push_decimal(&mut c, total as u128);
            push_str(&mut c, " [");
            push_repeat(&mut c, '█', filled);
            push_repeat(&mut c, '░', 10 - filled);
            push_str(&mut c, "]");
            string_of(c.as_slice())
        },
        None => String::new(),
    }
}

/// The spinner frame for a tick.
pub open spec fn spinner_frame(tick: nat) -> Seq<char> {
    seq!["⠋"@, "⠙"@, "⠹"@, "⠸"@, "⠼"@, "⠴"@, "⠦"@, "⠧"@, "⠇"@, "⠏"@][(tick % 10) as int]
}

/// What the status line knows: whether the agent is working and for how many
/// seconds, the animation tick, and the task progress and file text.
#[derive(Debug)]
pub struct StatusState {
    pub processing: bool,
    pub elapsed: u64,
    pub tick: u64,
    pub summary: Option<(usize, usize)>,
    pub content: Option<String>,
}

/// The status line's text: the spinner, the seconds and the progress while
/// the agent works, else the progress alone; nothing when idle without tasks.
pub open spec fn status_text(
    processing: bool,
    elapsed: nat,
    tick: nat,
    summary: Option<(nat, nat)>,
) -> Option<Seq<char>> {
    if !processing && summary is None {
        None
    } else if processing {
        Some(spinner_frame(tick) + " 思考中… ("@ + decimal(elapsed) + "s · esc 中断)"@ + progress_text(summary))
    } else {
        Some("📋 任务进度"@ + progress_text(summary))
    }
}

impl StatusState {
    /// Idle, with nothing known.
    pub fn new() -> (s: StatusState)
        ensures
            !s.processing,
            s.elapsed == 0,
            s.tick == 0,
            s.summary is None,
            s.content is None,
    {
        StatusState { processing: false, elapsed: 0, tick: 0, summary: None, content: None }
    }

    /// Takes in a client message.
    pub fn on_message(&mut self, msg: &AppMessage)
        ensures
            final(self).processing == match msg@ {
                AppView::AgentTaskStarted => true,
                AppView::AgentCompleted => false,
                AppView::AgentError(_) => false,
                _ => old(self).processing,
            },
            summary_view(final(self).summary) == match msg@ {
                AppView::TasksUpdated(d, t) => Some((d, t)),
                _ => summary_view(old(self).summary),
            },
            opt_text(final(self).content) == match msg@ {
                AppView::TaskContent(c) => Some(c),
                _ => opt_text(old(self).content),
            },
            final(self).elapsed == old(self).elapsed,
            final(self).tick == old(self).tick,
    {
        match msg {
            AppMessage::AgentTaskStarted => {
                self.processing = true;
            },
            AppMessage::AgentCompleted => {
                self.processing = false;
            },
            AppMessage::AgentError(_) => {
                self.processing = false;
            },
            AppMessage::TasksUpdated { done, total } => {
                self.summary = Some((*done, *total));
            },
            AppMessage::TaskContent(c) => {
                self.content = Some(c.clone());
            },
            _ => {},
        }
    }

    /// One second passes: the animation advances, and the working time counts
    /// up while the agent works and is reset otherwise.
    pub fn on_second(&mut self)
        requires
            old(self).tick < u64::MAX,
            old(self).elapsed < u64::MAX,
        ensures
            final(self).tick == old(self).tick + 1,
            final(self).elapsed == if old(self).processing {
                old(self).elapsed + 1
            } else {
                0
            },
            final(self).processing == old(self).processing,
            final(self).summary == old(self).summary,
            final(self).content == old(self).content,
    {
        self.tick = self.tick + 1;
        if self.processing {
            self.elapsed = self.elapsed + 1;
        } else {
            self.elapsed = 0;
        }
    }

    /// The status line's text, if it is shown.
    pub fn text(&self) -> (r: Option<String>)
        requires
            summary_ok(self.summary),
        ensures
            opt_text(r) == status_text(
                self.processing,
                self.elapsed as nat,
                self.tick as nat,
                summary_view(self.summary),
            ),
    {
        if !self.processing && self.summary.is_none() {
            return None;
        }
        let p = progress(self.summary);
        if self.processing {
            let frames = [
                "⠋",
                "⠙",
                "⠹",
                "⠸",
                "⠼",
                "⠴",
                "⠦",
                "⠧",
                "⠇",
                "⠏",
            ];
            let k = (self.tick % 10) as usize;
            let mut c = chars_of(frames[k]);
            push_str(&mut c, " 思考中… (");
            push_decimal(&mut c, self.elapsed as u128);
            push_str(&mut c, "s · esc 中断)");
            push_str(&mut c, p.as_str());
            Some(string_of(c.as_slice()))
        } else {
            let mut c = chars_of("📋 任务进度");
            push_str(&mut c, p.as_str());
            Some(string_of(c.as_slice()))
        }
    }
}

/// The task list lines shown under the status line for TaskGraph content:
/// each non-blank line that is a JSON object with string `id`, `desc` and
/// `type`, of type `inline` or `subagent`, numbered from 1 as
/// `<n> [<type>] <desc> (<id>)`, with whether it is done.
pub open spec fn graph_lines(ls: Seq<Seq<char>>) -> Seq<(Seq<char>, bool)>
    decreases ls.len(),
{
    if ls.len() == 0 {
        Seq::empty()
    } else {
        let r = graph_lines(ls.drop_last());
        let t = trim(ls.last());
        if t.len() == 0 {
            r
        } else {
            match json_parse(t) {
                Some(v) => match (str_member(v, "id"@), str_member(v, "desc"@), str_member(v, "type"@)) {
                    (Some(id), Some(desc), Some(ty)) => if ty == "inline"@ || ty == "subagent"@ {
                        r.push(
                            (
                                decimal(r.len() + 1) + " ["@ + ty + "] "@ + desc + " ("@ + id + ")"@,
                                node_done(v),
                            ),
                        )
                    } else {
                        r
                    },
                    _ => r,
                },
                None => r,
            }
        }
    }
}

/// The task list lines for TaskGraph content; `None` when there are none.
pub fn parse_taskgraph_lines(content: &str) -> (r: Option<Vec<(String, bool)>>)
    ensures
        match r {
            Some(v) => graph_lines(lines_of(content@)).len() > 0 && v@.map_values(
                |x: (String, bool)| (x.0@, x.1),
            ) == graph_lines(lines_of(content@)),
            None => graph_lines(lines_of(content@)).len() == 0,
        },
{
    let cs = chars_of(content);
    let ls = lines(cs.as_slice());
    let ghost lv = lines_of(content@);
    let mut out: Vec<(String, bool)> = Vec::new();
    let mut i: usize = 0;
    proof {
        assert(lv.take(0) =~= Seq::<Seq<char>>::empty());
        assert(out@.map_values(|x: (String, bool)| (x.0@, x.1)) =~= Seq::<(Seq<char>, bool)>::empty());
    }
    while i < ls.len()
        invariant
            i <= ls@.len(),
            ls@.len() == lv.len(),
            forall|j: int| 0 <= j < ls@.len() ==> #[trigger] ls@[j]@ == lv[j],
            out@.map_values(|x: (String, bool)| (x.0@, x.1)) == graph_lines(lv.take(i as int)),
            out@.len() <= i,
        decreases ls@.len() - i,
    {
        proof {
            assert(lv.take(i + 1).drop_last() =~= lv.take(i as int));
            assert(lv.take(i + 1).last() == ls@[i as int]@);
        }
        let t = trim_chars(ls[i].as_slice());
        if t.len() > 0 {
            let ts = string_of(t.as_slice());
            match parse_json(ts.as_str()) {
                Some(v) => {
                    match (str_field(&v, "id"), str_field(&v, "desc"), str_field(&v, "type")) {
                        (Some(id), Some(desc), Some(ty)) => {
                            let tc = chars_of(ty.as_str());
                            let inline = chars_of("inline");
                            let sub = chars_of("subagent");
                            proof {
                                reveal_strlit("inline");
                                reveal_strlit("subagent");
                            }
                            if slice_eq(tc.as_slice(), inline.as_slice()) || slice_eq(
                                tc.as_slice(),
                                sub.as_slice(),
                            ) {
                                let mut line: Vec<char> = Vec::new();
                                push_decimal(&mut line, (out.len() + 1) as u128);
                                push_str(&mut line, " [");
                                push_str(&mut line, ty.as_str());
                                push_str(&mut line, "] ");
                                push_str(&mut line, desc.as_str());
                                push_str(&mut line, " (");
                                push_str(&mut line, id.as_str());
                                push_str(&mut line, ")");
                                let done = task_node_done(&v);
                                let ghost before = out@;
                                let item = (string_of(line.as_slice()), done);
                                out.push(item);
                                proof {
                                    assert(out@.map_values(|x: (String, bool)| (x.0@, x.1)) =~= before.map_values(
                                        |x: (String, bool)| (x.0@, x.1),
                                    ).push((item.0@, item.1)));
                                }
                            }
                        },
                        _ => {},
                    }
                },
                None => {},
            }
        }
        i = i + 1;
    }
    proof {
        assert(lv.take(i as int) =~= lv);
    }
    if out.len() == 0 {
        None
    } else {
        Some(out)
    }
}

/// The lines shown under the status line for the task file's text: the task
/// list when it is TaskGraph content, else the whole trimmed text; with
/// whether each is shown dimmed. Nothing for a blank text.
pub open spec fn task_body_lines(content: Option<Seq<char>>) -> Seq<(Seq<char>, bool)> {
    match content {
        Some(c) => {
            let body = trim(c);
            if body.len() == 0 {
                Seq::empty()
            } else if graph_lines(lines_of(body)).len() > 0 {
                graph_lines(lines_of(body))
            } else {
                seq![(body, true)]
            }
        },
        None => Seq::empty(),
    }
}

impl StatusState {
    /// The lines shown under the status line, with whether each is dimmed
    /// (done tasks and plain text are).
    pub fn body(&self) -> (r: Vec<(String, bool)>)
        ensures
            r@.map_values(|x: (String, bool)| (x.0@, x.1)) == task_body_lines(opt_text(self.content)),
    {
        match &self.content {
            Some(c) => {
                let cs = chars_of(c.as_str());
                let t = trim_chars(cs.as_slice());
                if t.len() == 0 {
                    let r: Vec<(String, bool)> = Vec::new();
                    proof {
                        assert(r@.map_values(|x: (String, bool)| (x.0@, x.1)) =~= Seq::<(Seq<char>, bool)>::empty());
                    }
                    return r;
                }
                let body = string_of(t.as_slice());
                match parse_taskgraph_lines(body.as_str()) {
                    Some(v) => v,
                    None => {
                        let mut r: Vec<(String, bool)> = Vec::new();
                        let item = (body, true);
                        let ghost iv = (item.0@, item.1);
                        r.push(item);
                        proof {
                            assert(r@.map_values(|x: (String, bool)| (x.0@, x.1)) =~= seq![iv]);
                        }
                        r
                    },
                }
            },
            None => {
                let r: Vec<(String, bool)> = Vec::new();
                proof {
                    assert(r@.map_values(|x: (String, bool)| (x.0@, x.1)) =~= Seq::<(Seq<char>, bool)>::empty());
                }
                r
            },
        }
    }
}

/// Text without markers is shown as it is: no backtick, and (when bold is
/// rendered) no `**`.
pub proof fn law_plain_text_unchanged(s: Seq<char>, bold: bool)
    requires
        !contains(s, "`"@),
        bold ==> !contains(s, "**"@),
    ensures
        highlight(s, bold) == s,
    decreases s.len(),
{
    reveal_strlit("`");
    reveal_strlit("**");
    if s.len() > 0 {
        if bold && has_prefix(s, "**"@) {
            assert(occurs_at(s, "**"@, 0));
        }
        if s[0] == '`' {
            assert(s.subrange(0, 1) =~= "`"@);
            assert(occurs_at(s, "`"@, 0));
        }
        let rest = s.skip(1);
        assert forall|j: int| !occurs_at(rest, "`"@, j) by {
            if occurs_at(rest, "`"@, j) {
                assert(s.subrange(j + 1, j + 2) =~= rest.subrange(j, j + 1));
                assert(occurs_at(s, "`"@, j + 1));
            }
        }
        if bold {
            assert forall|j: int| !occurs_at(rest, "**"@, j) by {
                if occurs_at(rest, "**"@, j) {
                    assert(s.subrange(j + 1, j + 3) =~= rest.subrange(j, j + 2));
                    assert(occurs_at(s, "**"@, j + 1));
                }
            }
        }
        law_plain_text_unchanged(rest, bold);
        assert(seq![s[0]] + rest =~= s);
    }
}

} // verus!
