//! The command-line client's decisions: what the headless commands print and
//! when they stop reading the daemon's messages.
use vstd::prelude::*;
use crate::json::{json_error_text, json_parse, json_tree, parse_json_reporting, JsonTree};
use crate::protocol::{DaemonMessage, SessionInfo};
use crate::text::{char_seqs, chars_of, join, join_chars, push_str, string_of};
use crate::text::strings_view;
use crate::tui::sessions_view;

verus! {

/// What a headless agent run does with a daemon message.
#[derive(Debug)]
pub enum RunStep {
    /// Keep reading.
    Continue,
    /// The agent completed; print this text.
    Finished(String),
    /// The agent failed with this error.
    Failed(String),
}

/// The text a headless agent run collects: the lines of the last round of
/// assistant text, since tool calls start a new round.
#[derive(Debug)]
pub struct AgentRun {
    pub output: Vec<String>,
}

impl AgentRun {
    /// Nothing collected yet.
    pub fn new() -> (r: AgentRun)
        ensures
            r.output@.len() == 0,
    {
        AgentRun { output: Vec::new() }
    }

    /// Takes in a daemon message: text lines are collected, a tool call drops
    /// what was collected, completion gives the collected lines joined by
    /// newlines, and an agent error gives `Agent error: <message>`.
    pub fn on_message(&mut self, msg: DaemonMessage) -> (r: RunStep)
        ensures
            match msg {
                DaemonMessage::Text { line } => strings_view(final(self).output@) == strings_view(
                    old(self).output@,
                ).push(line@) && r is Continue,
                DaemonMessage::ToolCall { .. } => final(self).output@.len() == 0 && r is Continue,
                DaemonMessage::AgentCompleted => r matches RunStep::Finished(t) && t@ == join(
                    strings_view(old(self).output@),
                    "\n"@,
                ) && final(self).output == old(self).output,
                DaemonMessage::AgentError { message } => r matches RunStep::Failed(e) && e@
                    == "Agent error: "@ + message@ && final(self).output == old(self).output,
                _ => final(self).output == old(self).output && r is Continue,
            },
    {
        match msg {
            DaemonMessage::Text { line } => {
                let ghost lv = line@;
                self.output.push(line);
                proof {
                    assert(strings_view(self.output@) =~= strings_view(old(self).output@).push(lv));
                }
                RunStep::Continue
            },
            DaemonMessage::ToolCall { .. } => {
                self.output = Vec::new();
                RunStep::Continue
            },
            DaemonMessage::AgentCompleted => {
                let mut cs: Vec<Vec<char>> = Vec::new();
                let mut i: usize = 0;
                while i < self.output.len()
                    invariant
                        i <= self.output@.len(),
                        self.output == old(self).output,
                        char_seqs(cs@) == strings_view(self.output@.take(i as int)),
                    decreases self.output@.len() - i,
                {
                    let ghost before = cs@;
                    cs.push(chars_of(self.output[i].as_str()));
                    proof {
                        assert(char_seqs(cs@) =~= char_seqs(before).push(self.output@[i as int]@));
                        assert(self.output@.take(i + 1) =~= self.output@.take(i as int).push(
                            self.output@[i as int],
                        ));
                        assert(strings_view(self.output@.take(i + 1)) =~= strings_view(
                            self.output@.take(i as int),
                        ).push(self.output@[i as int]@));
                    }
                    i = i + 1;
                }
                proof {
                    assert(self.output@.take(i as int) =~= self.output@);
                    reveal_strlit("\n");
                }
                let nl = chars_of("\n");
                let joined = join_chars(&cs, nl.as_slice());
                RunStep::Finished(string_of(joined.as_slice()))
            },
            DaemonMessage::AgentError { message } => {
                let mut c = chars_of("Agent error: ");
                push_str(&mut c, message.as_str());
                RunStep::Failed(string_of(c.as_slice()))
            },
            _ => RunStep::Continue,
        }
    }
}

/// The lines printed for the active sessions.
pub open spec fn sessions_report_lines(ss: Seq<(Seq<char>, bool)>) -> Seq<Seq<char>> {
    if ss.len() == 0 {
        seq!["No active sessions."@]
    } else {
        seq!["Active sessions:\n"@] + ss.map_values(
            |s: (Seq<char>, bool)| "  "@ + s.0 + "  ["@ + if s.1 {
                "busy"@
            } else {
                "idle"@
            } + "]"@,
        )
    }
}

/// What `mash sessions list` prints for the daemon's session list.
pub fn sessions_report(sessions: &Vec<SessionInfo>) -> (r: Vec<String>)
    ensures
        strings_view(r@) == sessions_report_lines(sessions_view(sessions@)),
{
    let mut out: Vec<String> = Vec::new();
    if sessions.len() == 0 {
        out.push("No active sessions.".to_owned());
        proof {
            assert(strings_view(out@) =~= seq!["No active sessions."@]);
        }
        return out;
    }
    out.push("Active sessions:\n".to_owned());
    let ghost sv = sessions_view(sessions@);
    let ghost f = |s: (Seq<char>, bool)| "  "@ + s.0 + "  ["@ + if s.1 {
        "busy"@
    } else {
        "idle"@
    } + "]"@;
    let mut i: usize = 0;
    proof {
        assert(strings_view(out@) =~= seq!["Active sessions:\n"@] + sv.take(0).map_values(f));
    }
    while i < sessions.len()
        invariant
            i <= sessions@.len(),
            sv == sessions_view(sessions@),
            f == (|s: (Seq<char>, bool)| "  "@ + s.0 + "  ["@ + if s.1 {
                "busy"@
            } else {
                "idle"@
            } + "]"@),
            strings_view(out@) == seq!["Active sessions:\n"@] + sv.take(i as int).map_values(f),
        decreases sessions@.len() - i,
    {
        let mut c = chars_of("  ");
        push_str(&mut c, sessions[i].id.as_str());
        push_str(&mut c, "  [");
        if sessions[i].busy {
            push_str(&mut c, "busy");
        } else {
            push_str(&mut c, "idle");
        }
        push_str(&mut c, "]");
        let line = string_of(c.as_slice());
        let ghost before = out@;
        out.push(line);
        proof {
            assert(line@ == f(sv[i as int]));
            assert(strings_view(out@) =~= strings_view(before).push(line@));
            assert(sv.take(i + 1).map_values(f) =~= sv.take(i as int).map_values(f).push(f(sv[i as int])));
        }
        i = i + 1;
    }
    proof {
        assert(sv.take(i as int) =~= sv);
    }
    out
}

/// What `mash msg` prints once the message is sent.
pub fn message_sent(session_id: &str) -> (r: String)
    ensures
        r@ == "Message sent to session "@ + session_id@ + "."@,
{
    let mut c = chars_of("Message sent to session ");
    push_str(&mut c, session_id);
    push_str(&mut c, ".");
    string_of(c.as_slice())
}

/// The arguments of `mash mcp call`: the JSON text parsed, or
/// `Invalid JSON arguments: <error>`.
pub fn mcp_call_arguments(text: &str) -> (r: Result<serde_json::Value, String>)
    ensures
        r is Ok <==> json_parse(text@) is Some,
        r matches Ok(v) ==> json_tree(v) == json_parse(text@)->0,
        r matches Err(e) ==> e@ == "Invalid JSON arguments: "@ + json_error_text(text@),
{
    match parse_json_reporting(text) {
        Ok(v) => Ok(v),
        Err(e) => {
            let mut c = chars_of("Invalid JSON arguments: ");
            push_str(&mut c, e.as_str());
            Err(string_of(c.as_slice()))
        },
    }
}

} // verus!
