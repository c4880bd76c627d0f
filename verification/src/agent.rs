//! The agent loop as a state machine: the caller performs the LLM calls and
//! tool executions, and hands their outcomes back; the loop decides what to
//! emit, what to remember and when to stop.
//!
//! A turn asks the model for a response; each tool call of the response is
//! executed in order and its result sent back as a tool-result block; the loop
//! ends when a response has no tool calls, when the model call fails, or when
//! the caller aborts.
use vstd::prelude::*;
use crate::json::{json_clone, json_tree, trees, JsonTree};
use crate::llm::{
    blocks_view, duplicate_messages, messages_view, BlockView, ContentBlock, ContentView,
    LlmRequest, LlmResponse, Message, MessageContent, MessageView, Role, StreamEvent, EventView,
};
use crate::tasks::slice_eq;
use crate::text::{chars_of, lines, lines_of, push_str, string_of};

verus! {

/// The outcome of one tool execution.
#[derive(Debug)]
pub struct ToolResult {
    pub content: String,
    pub is_error: bool,
}

/// What the agent loop reports while it runs.
#[derive(Debug)]
pub enum AgentEvent {
    AgentStart,
    TurnStart,
    TextDelta(String),
    ThinkingDelta(String),
    Text(String),
    ToolCallStart { id: String, name: String, input: serde_json::Value },
    ToolCallEnd { id: String, name: String, result: String, is_error: bool },
    TurnEnd,
    AgentEnd,
    Error(String),
}

/// The content of an agent event.
pub ghost enum AgentEventView {
    AgentStart,
    TurnStart,
    TextDelta(Seq<char>),
    ThinkingDelta(Seq<char>),
    Text(Seq<char>),
    ToolCallStart(Seq<char>, Seq<char>, JsonTree),
    ToolCallEnd(Seq<char>, Seq<char>, Seq<char>, bool),
    TurnEnd,
    AgentEnd,
    Error(Seq<char>),
}

impl View for AgentEvent {
    type V = AgentEventView;

    open spec fn view(&self) -> AgentEventView {
        match self {
            AgentEvent::AgentStart => AgentEventView::AgentStart,
            AgentEvent::TurnStart => AgentEventView::TurnStart,
            AgentEvent::TextDelta(t) => AgentEventView::TextDelta(t@),
            AgentEvent::ThinkingDelta(t) => AgentEventView::ThinkingDelta(t@),
            AgentEvent::Text(t) => AgentEventView::Text(t@),
            AgentEvent::ToolCallStart { id, name, input } => AgentEventView::ToolCallStart(
                id@,
                name@,
                json_tree(*input),
            ),
            AgentEvent::ToolCallEnd { id, name, result, is_error } => AgentEventView::ToolCallEnd(
                id@,
                name@,
                result@,
                *is_error,
            ),
            AgentEvent::TurnEnd => AgentEventView::TurnEnd,
            AgentEvent::AgentEnd => AgentEventView::AgentEnd,
            AgentEvent::Error(e) => AgentEventView::Error(e@),
        }
    }
}

/// Views of a list of agent events.
pub open spec fn agent_events_view(v: Seq<AgentEvent>) -> Seq<AgentEventView> {
    v.map_values(|e: AgentEvent| e@)
}

/// A tool call: id, tool name and input.
pub type CallView = (Seq<char>, Seq<char>, JsonTree);

/// Views of a list of tool calls.
pub open spec fn calls_view(v: Seq<(String, String, serde_json::Value)>) -> Seq<CallView> {
    v.map_values(|c: (String, String, serde_json::Value)| (c.0@, c.1@, json_tree(c.2)))
}

/// The events reported for the blocks of a complete response: each non-empty
/// text, and each non-empty thinking text, in order.
pub open spec fn response_events(bs: Seq<BlockView>) -> Seq<AgentEventView>
    decreases bs.len(),
{
    if bs.len() == 0 {
        Seq::empty()
    } else {
        let r = response_events(bs.drop_last());
        match bs.last() {
            BlockView::Text(t) => if t.len() > 0 {
                r.push(AgentEventView::Text(t))
            } else {
                r
            },
            BlockView::Thinking(t) => if t.len() > 0 {
                r.push(AgentEventView::ThinkingDelta(t))
            } else {
                r
            },
            _ => r,
        }
    }
}

/// The tool calls among a list of blocks, in order.
pub open spec fn block_calls(bs: Seq<BlockView>) -> Seq<CallView>
    decreases bs.len(),
{
    if bs.len() == 0 {
        Seq::empty()
    } else {
        let r = block_calls(bs.drop_last());
        match bs.last() {
            BlockView::ToolUse(id, name, input) => r.push((id, name, input)),
            _ => r,
        }
    }
}

/// The summary of a tool result that the loop reports: its first line, or
/// `(empty)` when it has none.
pub open spec fn result_summary(content: Seq<char>) -> Seq<char> {
    if lines_of(content).len() == 0 {
        "(empty)"@
    } else {
        lines_of(content)[0]
    }
}

/// The result given for a call of a tool that does not exist.
pub open spec fn unknown_tool_text(name: Seq<char>) -> Seq<char> {
    "Unknown tool: "@ + name
}

/// The tool-result block for a call's result.
pub open spec fn result_block(id: Seq<char>, content: Seq<char>, is_error: bool) -> BlockView {
    BlockView::ToolResult(id, content, if is_error { Some(true) } else { None })
}

/// The recorded results answer the first calls, one each, in order.
pub open spec fn results_follow_calls(results: Seq<BlockView>, calls: Seq<CallView>) -> bool {
    &&& results.len() <= calls.len()
    &&& forall|i: int|
        0 <= i < results.len() ==> (#[trigger] results[i]) is ToolResult && results[i]->ToolResult_0
            == calls[i].0
}

/// The state of a running agent loop.
#[derive(Debug)]
pub struct AgentLoop {
    pub system: String,
    pub model: String,
    pub max_tokens: u32,
    pub messages: Vec<Message>,
    pub tool_defs: Vec<serde_json::Value>,
    pub tool_names: Vec<String>,
    pub calls: Vec<(String, String, serde_json::Value)>,
    pub results: Vec<ContentBlock>,
    pub started: bool,
    pub finished: bool,
}

impl AgentLoop {
    /// The loop's invariant: the recorded results answer the pending calls.
    pub open spec fn wf(&self) -> bool {
        results_follow_calls(blocks_view(self.results@), calls_view(self.calls@))
    }

    /// A loop over a conversation, with the tools' names and definitions.
    pub fn new(
        system: String,
        model: String,
        max_tokens: u32,
        messages: Vec<Message>,
        tool_names: Vec<String>,
        tool_defs: Vec<serde_json::Value>,
    ) -> (a: AgentLoop)
        ensures
            a.wf(),
            a.system@ == system@,
            a.model@ == model@,
            a.max_tokens == max_tokens,
            messages_view(a.messages@) == messages_view(messages@),
            a.tool_names@ == tool_names@,
            trees(a.tool_defs@) == trees(tool_defs@),
            a.calls@.len() == 0,
            a.results@.len() == 0,
            !a.started,
            !a.finished,
    {
        AgentLoop {
            system,
            model,
            max_tokens,
            messages,
            tool_defs,
            tool_names,
            calls: Vec::new(),
            results: Vec::new(),
            started: false,
            finished: false,
        }
    }
}

/// The events that open the loop, if it has not started yet.
pub open spec fn opening(started: bool) -> Seq<AgentEventView> {
    if started {
        Seq::empty()
    } else {
        seq![AgentEventView::AgentStart]
    }
}

impl AgentLoop {
    /// Appends `AgentStart` if the loop has not started, and marks it started.
    fn open(&mut self, out: &mut Vec<AgentEvent>)
        ensures
            agent_events_view(final(out)@) == agent_events_view(old(out)@) + opening(old(self).started),
            final(self).started,
            final(self).finished == old(self).finished,
            final(self).system == old(self).system,
            final(self).model == old(self).model,
            final(self).max_tokens == old(self).max_tokens,
            final(self).messages == old(self).messages,
            final(self).tool_defs == old(self).tool_defs,
            final(self).tool_names == old(self).tool_names,
            final(self).calls == old(self).calls,
            final(self).results == old(self).results,
    {
        if !self.started {
            let ghost before = out@;
            out.push(AgentEvent::AgentStart);
            proof {
                assert(agent_events_view(out@) =~= agent_events_view(before).push(
                    AgentEventView::AgentStart,
                ));
            }
            self.started = true;
        } else {
            proof {
                assert(agent_events_view(out@) =~= agent_events_view(out@) + Seq::<AgentEventView>::empty());
            }
        }
    }

    /// Starts a turn: reports an abort and ends the loop when `aborted`, and
    /// otherwise reports the turn and gives the request to send to the model.
    /// A finished loop does nothing.
    pub fn begin_turn(&mut self, aborted: bool) -> (r: (Vec<AgentEvent>, Option<LlmRequest>))
        ensures
            messages_view(final(self).messages@) == messages_view(old(self).messages@),
            final(self).wf() == old(self).wf(),
            final(self).calls == old(self).calls,
            final(self).results == old(self).results,
            old(self).finished ==> r.0@.len() == 0 && r.1 is None && final(self).finished,
            !old(self).finished && aborted ==> agent_events_view(r.0@) == opening(old(self).started)
                + seq![AgentEventView::Error("aborted"@), AgentEventView::AgentEnd] && r.1 is None
                && final(self).finished,
            !old(self).finished && !aborted ==> agent_events_view(r.0@) == opening(old(self).started)
                + seq![AgentEventView::TurnStart] && !final(self).finished && match r.1 {
                Some(req) => req.model@ == old(self).model@ && req.system@ == old(self).system@
                    && req.max_tokens == old(self).max_tokens && messages_view(req.messages@)
                    == messages_view(old(self).messages@) && trees(req.tools@) == trees(
                    old(self).tool_defs@,
                ),
                None => false,
            },
            final(self).finished || final(self).started,
    {
        let mut out: Vec<AgentEvent> = Vec::new();
        if self.finished {
            return (out, None);
        }
        proof {
            assert(agent_events_view(out@) =~= Seq::<AgentEventView>::empty());
        }
        self.open(&mut out);
        let ghost mid = agent_events_view(out@);
        if aborted {
            out.push(AgentEvent::Error("aborted".to_owned()));
            out.push(AgentEvent::AgentEnd);
            proof {
                assert(agent_events_view(out@) =~= mid + seq![
                    AgentEventView::Error("aborted"@),
                    AgentEventView::AgentEnd,
                ]);
            }
            self.finished = true;
            return (out, None);
        }
        out.push(AgentEvent::TurnStart);
        proof {
            assert(agent_events_view(out@) =~= mid + seq![AgentEventView::TurnStart]);
        }
        let mut tools: Vec<serde_json::Value> = Vec::new();
        let mut i: usize = 0;
        while i < self.tool_defs.len()
            invariant
                i <= self.tool_defs@.len(),
                trees(tools@) == trees(self.tool_defs@.take(i as int)),
            decreases self.tool_defs@.len() - i,
        {
            let ghost before = tools@;
            tools.push(json_clone(&self.tool_defs[i]));
            proof {
                assert(trees(tools@) =~= trees(before).push(json_tree(self.tool_defs@[i as int])));
                assert(self.tool_defs@.take(i + 1) =~= self.tool_defs@.take(i as int).push(
                    self.tool_defs@[i as int],
                ));
                assert(trees(self.tool_defs@.take(i + 1)) =~= trees(self.tool_defs@.take(i as int)).push(
                    json_tree(self.tool_defs@[i as int]),
                ));
            }
            i = i + 1;
        }
        proof {
            assert(self.tool_defs@.take(i as int) =~= self.tool_defs@);
        }
        let req = LlmRequest {
            model: self.model.clone(),
            system: self.system.clone(),
            max_tokens: self.max_tokens,
            messages: duplicate_messages(&self.messages),
            tools,
        };
        (out, Some(req))
    }

    /// The model call failed: reports the error and ends the loop.
    pub fn llm_failed(&mut self, message: String) -> (r: Vec<AgentEvent>)
        ensures
            agent_events_view(r@) == seq![AgentEventView::Error(message@), AgentEventView::AgentEnd],
            final(self).finished,
            messages_view(final(self).messages@) == messages_view(old(self).messages@),
            final(self).wf() == old(self).wf(),
    {
        let ghost m = message@;
        let mut out: Vec<AgentEvent> = Vec::new();
        out.push(AgentEvent::Error(message));
        out.push(AgentEvent::AgentEnd);
        proof {
            assert(agent_events_view(out@) =~= seq![AgentEventView::Error(m), AgentEventView::AgentEnd]);
        }
        self.finished = true;
        out
    }

    /// Takes in a complete model response: reports its texts and thinking,
    /// adds it to the conversation as an assistant message, and makes its tool
    /// calls the pending ones; without tool calls, the turn and the loop end.
    pub fn take_response(&mut self, response: LlmResponse) -> (r: Vec<AgentEvent>)
        ensures
            messages_view(final(self).messages@) == messages_view(old(self).messages@).push(
                MessageView {
                    role: Role::Assistant,
                    content: ContentView::Blocks(blocks_view(response.content@)),
                },
            ),
            calls_view(final(self).calls@) == block_calls(blocks_view(response.content@)),
            final(self).results@.len() == 0,
            final(self).wf(),
            agent_events_view(r@) == response_events(blocks_view(response.content@)) + if block_calls(
                blocks_view(response.content@),
            ).len() == 0 {
                seq![AgentEventView::TurnEnd, AgentEventView::AgentEnd]
            } else {
                Seq::empty()
            },
            final(self).finished == (old(self).finished || block_calls(
                blocks_view(response.content@),
            ).len() == 0),
    {
        let ghost bs = blocks_view(response.content@);
        let mut out: Vec<AgentEvent> = Vec::new();
        let mut calls: Vec<(String, String, serde_json::Value)> = Vec::new();
        let mut i: usize = 0;
        proof {
            assert(bs.take(0) =~= Seq::<BlockView>::empty());
            assert(agent_events_view(out@) =~= Seq::<AgentEventView>::empty());
            assert(calls_view(calls@) =~= Seq::<CallView>::empty());
        }
        while i < response.content.len()
            invariant
                i <= response.content@.len(),
                bs == blocks_view(response.content@),
                agent_events_view(out@) == response_events(bs.take(i as int)),
                calls_view(calls@) == block_calls(bs.take(i as int)),
            decreases response.content@.len() - i,
        {
            proof {
                assert(bs.take(i + 1).drop_last() =~= bs.take(i as int));
                assert(bs.take(i + 1).last() == response.content@[i as int]@);
            }
            match &response.content[i] {
                ContentBlock::Text { text } => {
                    if text.as_str().unicode_len() > 0 {
                        let ev = AgentEvent::Text(text.clone());
                        let ghost before = out@;
                        out.push(ev);
                        proof {
                            assert(agent_events_view(out@) =~= agent_events_view(before).push(ev@));
                        }
                    }
                },
                ContentBlock::Thinking { thinking } => {
                    if thinking.as_str().unicode_len() > 0 {
                        let ev = AgentEvent::ThinkingDelta(thinking.clone());
                        let ghost before = out@;
                        out.push(ev);
                        proof {
                            assert(agent_events_view(out@) =~= agent_events_view(before).push(ev@));
                        }
                    }
                },
                ContentBlock::ToolUse { id, name, input } => {
                    let c = (id.clone(), name.clone(), json_clone(input));
                    let ghost before = calls@;
                    calls.push(c);
                    proof {
                        assert(calls_view(calls@) =~= calls_view(before).push(
                            (c.0@, c.1@, json_tree(c.2)),
                        ));
                    }
                },
                ContentBlock::ToolResult { .. } => {},
            }
            i = i + 1;
        }
        proof {
            assert(bs.take(i as int) =~= bs);
        }
        let ghost evs = agent_events_view(out@);
        let no_calls = calls.len() == 0;
        self.messages.push(Message { role: Role::Assistant, content: MessageContent::Blocks(response.content) });
        proof {
            assert(messages_view(self.messages@) =~= messages_view(old(self).messages@).push(
                MessageView { role: Role::Assistant, content: ContentView::Blocks(bs) },
            ));
        }
        self.calls = calls;
        self.results = Vec::new();
        proof {
            assert(blocks_view(self.results@) =~= Seq::<BlockView>::empty());
        }
        if no_calls {
            out.push(AgentEvent::TurnEnd);
            out.push(AgentEvent::AgentEnd);
            proof {
                assert(agent_events_view(out@) =~= evs + seq![AgentEventView::TurnEnd, AgentEventView::AgentEnd]);
            }
            self.finished = true;
        } else {
            proof {
                assert(agent_events_view(out@) =~= evs + Seq::<AgentEventView>::empty());
            }
        }
        out
    }
}

/// The first line of a tool result, or `(empty)`.
pub fn summarize_result(content: &str) -> (r: String)
    ensures
        r@ == result_summary(content@),
{
    let cs = chars_of(content);
    let ls = lines(cs.as_slice());
    if ls.len() == 0 {
        "(empty)".to_owned()
    } else {
        string_of(ls[0].as_slice())
    }
}

/// The result of a call of a tool that does not exist.
pub fn unknown_tool(name: &str) -> (r: ToolResult)
    ensures
        r.content@ == unknown_tool_text(name@),
        r.is_error,
{
    let mut m = chars_of("Unknown tool: ");
    push_str(&mut m, name);
    proof {
        reveal_strlit("Unknown tool: ");
    }
    ToolResult { content: string_of(m.as_slice()), is_error: true }
}

impl AgentLoop {
    /// The start of the next pending tool call, if one is left.
    pub fn next_call(&self) -> (r: Option<AgentEvent>)
        requires
            self.wf(),
        ensures
            self.results@.len() < self.calls@.len() ==> (r matches Some(ev) && ev@
                == AgentEventView::ToolCallStart(
                calls_view(self.calls@)[self.results@.len() as int].0,
                calls_view(self.calls@)[self.results@.len() as int].1,
                calls_view(self.calls@)[self.results@.len() as int].2,
            )),
            self.results@.len() >= self.calls@.len() ==> r is None,
    {
        let k = self.results.len();
        if k < self.calls.len() {
            let c = &self.calls[k];
            Some(AgentEvent::ToolCallStart { id: c.0.clone(), name: c.1.clone(), input: json_clone(&c.2) })
        } else {
            None
        }
    }

    /// The position of the first tool with the given name.
    pub fn tool_index(&self, name: &str) -> (r: Option<usize>)
        ensures
            match r {
                Some(i) => i < self.tool_names@.len() && self.tool_names@[i as int]@ == name@ && forall|
                    j: int,
                | 0 <= j < i ==> (#[trigger] self.tool_names@[j])@ != name@,
                None => forall|j: int|
                    0 <= j < self.tool_names@.len() ==> (#[trigger] self.tool_names@[j])@ != name@,
            },
    {
        let nc = chars_of(name);
        let mut i: usize = 0;
        while i < self.tool_names.len()
            invariant
                nc@ == name@,
                i <= self.tool_names@.len(),
                forall|j: int| 0 <= j < i ==> (#[trigger] self.tool_names@[j])@ != name@,
            decreases self.tool_names@.len() - i,
        {
            let tc = chars_of(self.tool_names[i].as_str());
            if slice_eq(tc.as_slice(), nc.as_slice()) {
                return Some(i);
            }
            i = i + 1;
        }
        None
    }

    /// Records the result of the next pending call: adds its tool-result block
    /// and reports the call's end with the result's first line. Gives `None`
    /// when no call is pending.
    pub fn record_result(&mut self, result: ToolResult) -> (r: Option<AgentEvent>)
        requires
            old(self).wf(),
        ensures
            final(self).wf(),
            messages_view(final(self).messages@) == messages_view(old(self).messages@),
            final(self).calls == old(self).calls,
            final(self).finished == old(self).finished,
            old(self).results@.len() < old(self).calls@.len() ==> {
                let c = calls_view(old(self).calls@)[old(self).results@.len() as int];
                &&& blocks_view(final(self).results@) == blocks_view(old(self).results@).push(
                    result_block(c.0, result.content@, result.is_error),
                )
                &&& r matches Some(ev) && ev@ == AgentEventView::ToolCallEnd(
                    c.0,
                    c.1,
                    result_summary(result.content@),
                    result.is_error,
                )
            },
            old(self).results@.len() >= old(self).calls@.len() ==> r is None && final(self).results
                == old(self).results,
    {
        let k = self.results.len();
        if k >= self.calls.len() {
            return None;
        }
        let id = self.calls[k].0.clone();
        let name = self.calls[k].1.clone();
        let summary = summarize_result(result.content.as_str());
        let ev = AgentEvent::ToolCallEnd { id: id.clone(), name, result: summary, is_error: result.is_error };
        let b = ContentBlock::ToolResult {
            tool_use_id: id,
            content: result.content,
            is_error: if result.is_error {
                Some(true)
            } else {
                None
            },
        };
        let ghost before = self.results@;
        self.results.push(b);
        proof {
            assert(blocks_view(self.results@) =~= blocks_view(before).push(b@));
            assert(calls_view(self.calls@)[k as int].0 == self.calls@[k as int].0@);
        }
        Some(ev)
    }

    /// Ends the tool phase of a turn: the results go back to the model as a
    /// user message, and the turn ends.
    pub fn end_tools(&mut self) -> (r: Vec<AgentEvent>)
        ensures
            messages_view(final(self).messages@) == messages_view(old(self).messages@).push(
                MessageView {
                    role: Role::User,
                    content: ContentView::Blocks(blocks_view(old(self).results@)),
                },
            ),
            agent_events_view(r@) == seq![AgentEventView::TurnEnd],
            final(self).calls@.len() == 0,
            final(self).results@.len() == 0,
            final(self).wf(),
            final(self).finished == old(self).finished,
    {
        let mut results: Vec<ContentBlock> = Vec::new();
        std::mem::swap(&mut results, &mut self.results);
        let ghost rb = blocks_view(results@);
        self.messages.push(Message { role: Role::User, content: MessageContent::Blocks(results) });
        proof {
            assert(messages_view(self.messages@) =~= messages_view(old(self).messages@).push(
                MessageView { role: Role::User, content: ContentView::Blocks(rb) },
            ));
        }
        self.calls = Vec::new();
        proof {
            assert(blocks_view(self.results@) =~= Seq::<BlockView>::empty());
            assert(calls_view(self.calls@) =~= Seq::<CallView>::empty());
        }
        let mut out: Vec<AgentEvent> = Vec::new();
        out.push(AgentEvent::TurnEnd);
        proof {
            assert(agent_events_view(out@) =~= seq![AgentEventView::TurnEnd]);
        }
        out
    }
}

/// A streamed response being collected: the text so far, the completed
/// blocks, the tool calls among them, whether the stream is over, and whether
/// it ended in an error.
pub type TurnView = (Seq<char>, Seq<BlockView>, Seq<CallView>, bool, bool);

/// Some block is a text block.
pub open spec fn has_text_block(bs: Seq<BlockView>) -> bool {
    exists|i: int| 0 <= i < bs.len() && (#[trigger] bs[i]) is Text
}

/// What one stream event does to a collected response, and the events the
/// loop reports for it. Text deltas are collected and reported; completed
/// blocks are kept (tool calls noted, thinking reported); `Done` puts the
/// collected text first as a text block if no text block came, and closes;
/// an error is reported, closes and marks the turn failed. A closed stream
/// takes nothing more.
pub open spec fn turn_step(t: TurnView, ev: EventView) -> (Seq<AgentEventView>, TurnView) {
    if t.3 {
        (Seq::empty(), t)
    } else {
        match ev {
            EventView::TextDelta(x) => (
                seq![AgentEventView::TextDelta(x)],
                (t.0 + x, t.1, t.2, false, t.4),
            ),
            EventView::BlockComplete(b) => match b {
                BlockView::ToolUse(id, name, input) => (
                    Seq::empty(),
                    (t.0, t.1.push(b), t.2.push((id, name, input)), false, t.4),
                ),
                BlockView::Thinking(th) => (
                    seq![AgentEventView::ThinkingDelta(th)],
                    (t.0, t.1.push(b), t.2, false, t.4),
                ),
                _ => (Seq::empty(), (t.0, t.1.push(b), t.2, false, t.4)),
            },
            EventView::Done(_) => (
                Seq::empty(),
                (
                    t.0,
                    if t.0.len() > 0 && !has_text_block(t.1) {
                        seq![BlockView::Text(t.0)] + t.1
                    } else {
                        t.1
                    },
                    t.2,
                    true,
                    t.4,
                ),
            ),
            EventView::Error(e) => (seq![AgentEventView::Error(e)], (t.0, t.1, t.2, true, true)),
        }
    }
}

/// A streamed response being collected.
#[derive(Debug)]
pub struct StreamTurn {
    pub full_text: String,
    pub blocks: Vec<ContentBlock>,
    pub calls: Vec<(String, String, serde_json::Value)>,
    pub closed: bool,
    pub failed: bool,
}

impl View for StreamTurn {
    type V = TurnView;

    open spec fn view(&self) -> TurnView {
        (self.full_text@, blocks_view(self.blocks@), calls_view(self.calls@), self.closed, self.failed)
    }
}

impl StreamTurn {
    /// Nothing collected yet.
    pub fn new() -> (t: StreamTurn)
        ensures
            t@ == (
                Seq::<char>::empty(),
                Seq::<BlockView>::empty(),
                Seq::<CallView>::empty(),
                false,
                false,
            ),
    {
        let t = StreamTurn {
            full_text: String::new(),
            blocks: Vec::new(),
            calls: Vec::new(),
            closed: false,
            failed: false,
        };
        proof {
            assert(blocks_view(t.blocks@) =~= Seq::<BlockView>::empty());
            assert(calls_view(t.calls@) =~= Seq::<CallView>::empty());
        }
        t
    }

    /// Takes in one stream event; gives the events the loop reports for it.
    pub fn on_event(&mut self, ev: StreamEvent) -> (r: Vec<AgentEvent>)
        ensures
            (agent_events_view(r@), final(self)@) == turn_step(old(self)@, ev@),
    {
        let mut out: Vec<AgentEvent> = Vec::new();
        proof {
            assert(agent_events_view(out@) =~= Seq::<AgentEventView>::empty());
        }
        if self.closed {
            return out;
        }
        let ghost evv = ev@;
        match ev {
            StreamEvent::TextDelta(x) => {
                let mut tc = chars_of(self.full_text.as_str());
                push_str(&mut tc, x.as_str());
                self.full_text = string_of(tc.as_slice());
                let e = AgentEvent::TextDelta(x);
                out.push(e);
                proof {
                    assert(agent_events_view(out@) =~= seq![e@]);
                }
            },
            StreamEvent::BlockComplete(b) => {
                let ghost bv = b@;
                match &b {
                    ContentBlock::ToolUse { id, name, input } => {
                        let c = (id.clone(), name.clone(), json_clone(input));
                        let ghost before = self.calls@;
                        self.calls.push(c);
                        proof {
                            assert(calls_view(self.calls@) =~= calls_view(before).push(
                                (c.0@, c.1@, json_tree(c.2)),
                            ));
                        }
                    },
                    ContentBlock::Thinking { thinking } => {
                        let e = AgentEvent::ThinkingDelta(thinking.clone());
                        out.push(e);
                        proof {
                            assert(agent_events_view(out@) =~= seq![e@]);
                        }
                    },
                    _ => {},
                }
                let ghost before = self.blocks@;
                self.blocks.push(b);
                proof {
                    assert(blocks_view(self.blocks@) =~= blocks_view(before).push(bv));
                }
            },
            StreamEvent::Done { .. } => {
                let has_text = {
                    let mut found = false;
                    let mut i: usize = 0;
                    while i < self.blocks.len()
                        invariant
                            i <= self.blocks@.len(),
                            found ==> exists|j: int| 0 <= j < i && (#[trigger] self.blocks@[j]@) is Text,
                            !found ==> forall|j: int| 0 <= j < i ==> !((#[trigger] self.blocks@[j]@) is Text),
                        decreases self.blocks@.len() - i,
                    {
                        match &self.blocks[i] {
                            ContentBlock::Text { .. } => {
                                proof {
                                    assert(self.blocks@[i as int]@ is Text);
                                }
                                found = true;
                            },
                            _ => {},
                        }
                        i = i + 1;
                    }
                    found
                };
                proof {
                    if has_text {
                        let j = choose|j: int| 0 <= j < self.blocks@.len() && (#[trigger] self.blocks@[j]@) is Text;
                        assert(blocks_view(self.blocks@)[j] is Text);
                    } else {
                        assert forall|j: int| 0 <= j < blocks_view(self.blocks@).len() implies !(#[trigger] blocks_view(self.blocks@)[j] is Text) by {
                            assert(blocks_view(self.blocks@)[j] == self.blocks@[j]@);
                        }
                    }
                }
                if self.full_text.as_str().unicode_len() > 0 && !has_text {
                    let ghost before = blocks_view(self.blocks@);
                    let tb = ContentBlock::Text { text: self.full_text.clone() };
                    self.blocks.insert(0, tb);
                    proof {
                        assert(blocks_view(self.blocks@) =~= seq![BlockView::Text(self.full_text@)] + before);
                    }
                }
                self.closed = true;
            },
            StreamEvent::Error(e) => {
                let a = AgentEvent::Error(e);
                out.push(a);
                proof {
                    assert(agent_events_view(out@) =~= seq![a@]);
                }
                self.closed = true;
                self.failed = true;
            },
        }
        out
    }
}

/// The blocks kept for a collected response: the collected text alone when
/// no block came.
pub open spec fn turn_blocks(t: TurnView) -> Seq<BlockView> {
    if t.1.len() == 0 && t.0.len() > 0 {
        seq![BlockView::Text(t.0)]
    } else {
        t.1
    }
}

/// The blocks among `bs` that are not tool calls, in order.
pub open spec fn without_calls(bs: Seq<BlockView>) -> Seq<BlockView>
    decreases bs.len(),
{
    if bs.len() == 0 {
        Seq::empty()
    } else {
        let r = without_calls(bs.drop_last());
        if bs.last() is ToolUse {
            r
        } else {
            r.push(bs.last())
        }
    }
}

/// The blocks that a collected response adds to the conversation: a failed
/// turn keeps none of its tool calls, since none of them will be answered.
pub open spec fn kept_blocks(t: TurnView) -> Seq<BlockView> {
    if t.4 {
        without_calls(turn_blocks(t))
    } else {
        turn_blocks(t)
    }
}

/// The tool calls that a collected response leaves to run: none after an error.
pub open spec fn kept_calls(t: TurnView) -> Seq<CallView> {
    if t.4 {
        Seq::empty()
    } else {
        t.2
    }
}

/// The events reported when a collected response is taken in: the whole text,
/// if any, then the end of the turn and the loop when no tool call is left to
/// run (no call came, or the stream ended in an error).
pub open spec fn turn_events(t: TurnView) -> Seq<AgentEventView> {
    (if t.0.len() > 0 {
        seq![AgentEventView::Text(t.0)]
    } else {
        Seq::empty()
    }) + if kept_calls(t).len() == 0 {
        seq![AgentEventView::TurnEnd, AgentEventView::AgentEnd]
    } else {
        Seq::empty()
    }
}

/// The blocks of `blocks` that are not tool calls.
fn drop_calls(blocks: Vec<ContentBlock>) -> (r: Vec<ContentBlock>)
    ensures
        blocks_view(r@) == without_calls(blocks_view(blocks@)),
{
    let ghost bs = blocks_view(blocks@);
    let n = blocks.len();
    let mut out: Vec<ContentBlock> = Vec::new();
    let mut rest = blocks;
    let mut rev: Vec<ContentBlock> = Vec::new();
    while rest.len() > 0
        invariant
            rest@.len() + rev@.len() == bs.len(),
            forall|j: int| 0 <= j < rest@.len() ==> #[trigger] rest@[j]@ == bs[j],
            forall|j: int| 0 <= j < rev@.len() ==> #[trigger] rev@[j]@ == bs[bs.len() - 1 - j],
        decreases rest@.len(),
    {
        let b = rest.pop().unwrap();
        rev.push(b);
    }
    let mut i: usize = 0;
    proof {
        assert(blocks_view(out@) =~= without_calls(bs.take(0)));
    }
    while rev.len() > 0
        invariant
            rev@.len() + i == bs.len(),
            bs.len() == n,
            forall|j: int| 0 <= j < rev@.len() ==> #[trigger] rev@[j]@ == bs[bs.len() - 1 - j],
            blocks_view(out@) == without_calls(bs.take(i as int)),
        decreases rev@.len(),
    {
        let b = rev.pop().unwrap();
        proof {
            assert(b@ == bs[i as int]);
            assert(bs.take(i + 1).drop_last() =~= bs.take(i as int));
            assert(bs.take(i + 1).last() == bs[i as int]);
        }
        let is_call = match &b {
            ContentBlock::ToolUse { .. } => true,
            _ => false,
        };
        if !is_call {
            let ghost before = out@;
            out.push(b);
            proof {
                assert(blocks_view(out@) =~= blocks_view(before).push(bs[i as int]));
            }
        }
        i = i + 1;
    }
    proof {
        assert(bs.take(i as int) =~= bs);
    }
    out
}

impl AgentLoop {
    /// Takes in a streamed response: reports its text, adds it to the
    /// conversation as an assistant message, and makes its tool calls the
    /// pending ones. Without tool calls, or when the stream ended in an error,
    /// the turn and the loop end and no call is left pending.
    pub fn take_stream_turn(&mut self, turn: StreamTurn) -> (r: Vec<AgentEvent>)
        ensures
            messages_view(final(self).messages@) == messages_view(old(self).messages@).push(
                MessageView { role: Role::Assistant, content: ContentView::Blocks(kept_blocks(turn@)) },
            ),
            calls_view(final(self).calls@) == kept_calls(turn@),
            final(self).results@.len() == 0,
            final(self).wf(),
            agent_events_view(r@) == turn_events(turn@),
            final(self).finished == (old(self).finished || kept_calls(turn@).len() == 0),
    {
        let ghost tv = turn@;
        let StreamTurn { full_text, mut blocks, calls, closed: _, failed } = turn;
        let mut out: Vec<AgentEvent> = Vec::new();
        let has_text = full_text.as_str().unicode_len() > 0;
        if has_text {
            out.push(AgentEvent::Text(full_text.clone()));
        }
        if blocks.len() == 0 && has_text {
            blocks.push(ContentBlock::Text { text: full_text });
        }
        proof {
            assert(blocks_view(blocks@) =~= turn_blocks(tv));
        }
        let blocks = if failed {
            drop_calls(blocks)
        } else {
            blocks
        };
        let calls = if failed {
            Vec::new()
        } else {
            calls
        };
        proof {
            assert(blocks_view(blocks@) =~= kept_blocks(tv));
            assert(calls_view(calls@) =~= kept_calls(tv));
        }
        let ghost bv = blocks_view(blocks@);
        self.messages.push(Message { role: Role::Assistant, content: MessageContent::Blocks(blocks) });
        proof {
            assert(messages_view(self.messages@) =~= messages_view(old(self).messages@).push(
                MessageView { role: Role::Assistant, content: ContentView::Blocks(bv) },
            ));
        }
        let no_calls = calls.len() == 0;
        self.calls = calls;
        self.results = Vec::new();
        proof {
            assert(blocks_view(self.results@) =~= Seq::<BlockView>::empty());
        }
        let ghost mid = agent_events_view(out@);
        if no_calls {
            out.push(AgentEvent::TurnEnd);
            out.push(AgentEvent::AgentEnd);
            proof {
                assert(agent_events_view(out@) =~= mid + seq![AgentEventView::TurnEnd, AgentEventView::AgentEnd]);
            }
            self.finished = true;
        } else {
            proof {
                assert(agent_events_view(out@) =~= mid + Seq::<AgentEventView>::empty());
            }
        }
        proof {
            assert(agent_events_view(out@) =~= turn_events(tv));
        }
        out
    }
}

/// One turn with tool calls, from request to request: when a turn's stream
/// ends without error and collects tool calls, `take_stream_turn` adds the
/// reply, `record_result` answers every call and `end_tools` closes the tool
/// phase, the next request (`begin_turn`) carries the previous request's
/// messages, then the assistant's reply, then one user message holding one
/// tool result per call, in the calls' order.
pub proof fn law_next_request(
    req0: LlmRequest,
    turn: TurnView,
    a1: AgentLoop,
    a2: AgentLoop,
    a3: AgentLoop,
    req1: LlmRequest,
)
    requires
        !turn.4,
        messages_view(a1.messages@) == messages_view(req0.messages@).push(
            MessageView { role: Role::Assistant, content: ContentView::Blocks(kept_blocks(turn)) },
        ),
        calls_view(a1.calls@) == kept_calls(turn),
        a2.wf(),
        a2.calls == a1.calls,
        messages_view(a2.messages@) == messages_view(a1.messages@),
        a2.results@.len() == a2.calls@.len(),
        messages_view(a3.messages@) == messages_view(a2.messages@).push(
            MessageView { role: Role::User, content: ContentView::Blocks(blocks_view(a2.results@)) },
        ),
        messages_view(req1.messages@) == messages_view(a3.messages@),
    ensures
        messages_view(req1.messages@) == messages_view(req0.messages@) + seq![
            MessageView { role: Role::Assistant, content: ContentView::Blocks(turn_blocks(turn)) },
            MessageView { role: Role::User, content: ContentView::Blocks(blocks_view(a2.results@)) },
        ],
        blocks_view(a2.results@).len() == turn.2.len(),
        forall|i: int|
            0 <= i < turn.2.len() ==> (#[trigger] blocks_view(a2.results@)[i]) is ToolResult
                && blocks_view(a2.results@)[i]->ToolResult_0 == turn.2[i].0,
{
    assert(messages_view(req1.messages@) =~= messages_view(req0.messages@) + seq![
        MessageView { role: Role::Assistant, content: ContentView::Blocks(turn_blocks(turn)) },
        MessageView { role: Role::User, content: ContentView::Blocks(blocks_view(a2.results@)) },
    ]);
}

/// A response that has collected nothing yet.
pub open spec fn empty_turn() -> TurnView {
    (Seq::empty(), Seq::empty(), Seq::empty(), false, false)
}

/// The collected response after taking in the stream events `evs` one by one
/// (`StreamTurn::on_event`), starting from `t`.
pub open spec fn run_turn(t: TurnView, evs: Seq<EventView>) -> TurnView
    decreases evs.len(),
{
    if evs.len() == 0 {
        t
    } else {
        turn_step(run_turn(t, evs.drop_last()), evs.last()).1
    }
}

/// The stream of a reply: its text deltas, then its completed blocks, then `Done`.
pub open spec fn reply_events(
    deltas: Seq<Seq<char>>,
    blocks: Seq<BlockView>,
    stop: Option<Seq<char>>,
) -> Seq<EventView> {
    deltas.map_values(|x: Seq<char>| EventView::TextDelta(x)) + blocks.map_values(
        |b: BlockView| EventView::BlockComplete(b),
    ) + seq![EventView::Done(stop)]
}

/// Taking in two runs of events is taking in the first, then the second.
proof fn lemma_run_turn_concat(t: TurnView, e1: Seq<EventView>, e2: Seq<EventView>)
    ensures
        run_turn(t, e1 + e2) == run_turn(run_turn(t, e1), e2),
    decreases e2.len(),
{
    if e2.len() == 0 {
        assert(e1 + e2 =~= e1);
    } else {
        assert((e1 + e2).drop_last() =~= e1 + e2.drop_last());
        assert((e1 + e2).last() == e2.last());
        lemma_run_turn_concat(t, e1, e2.drop_last());
    }
}

/// Text deltas taken into an open response add up to its text.
proof fn lemma_run_deltas(t: TurnView, deltas: Seq<Seq<char>>)
    requires
        !t.3,
    ensures
        run_turn(t, deltas.map_values(|x: Seq<char>| EventView::TextDelta(x))) == (
            t.0 + deltas.flatten(),
            t.1,
            t.2,
            false,
            t.4,
        ),
    decreases deltas.len(),
{
    let evs = deltas.map_values(|x: Seq<char>| EventView::TextDelta(x));
    if deltas.len() == 0 {
        assert(t.0 + deltas.flatten() =~= t.0);
    } else {
        let d0 = deltas.drop_last();
        assert(evs.drop_last() =~= d0.map_values(|x: Seq<char>| EventView::TextDelta(x)));
        lemma_run_deltas(t, d0);
        assert(d0.push(deltas.last()) =~= deltas);
        d0.lemma_flatten_push(deltas.last());
        assert(t.0 + d0.flatten() + deltas.last() =~= t.0 + deltas.flatten());
    }
}

/// Completed blocks taken into an open response are kept, and its tool calls noted.
proof fn lemma_run_blocks(t: TurnView, blocks: Seq<BlockView>)
    requires
        !t.3,
    ensures
        run_turn(t, blocks.map_values(|b: BlockView| EventView::BlockComplete(b))) == (
            t.0,
            t.1 + blocks,
            t.2 + block_calls(blocks),
            false,
            t.4,
        ),
    decreases blocks.len(),
{
    let evs = blocks.map_values(|b: BlockView| EventView::BlockComplete(b));
    if blocks.len() == 0 {
        assert(t.1 + blocks =~= t.1);
        assert(t.2 + block_calls(blocks) =~= t.2);
    } else {
        let b0 = blocks.drop_last();
        assert(evs.drop_last() =~= b0.map_values(|b: BlockView| EventView::BlockComplete(b)));
        lemma_run_blocks(t, b0);
        assert(t.1 + b0 + seq![blocks.last()] =~= t.1 + blocks);
        assert((t.1 + b0).push(blocks.last()) =~= t.1 + blocks);
        match blocks.last() {
            BlockView::ToolUse(id, name, input) => {
                assert((t.2 + block_calls(b0)).push((id, name, input)) =~= t.2 + block_calls(blocks));
            },
            _ => {
                assert(t.2 + block_calls(b0) =~= t.2 + block_calls(blocks));
            },
        }
    }
}

/// One streamed turn with text and tool calls, from request to request: when a
/// turn's stream gives text deltas making a non-empty text, then completed
/// blocks (none of them text, at least one tool call), then `Done`, and each
/// call is answered, the next request carries the previous request's
/// messages, then the assistant's reply (the whole text as a text block,
/// then the blocks), then one user message holding one tool result per call,
/// in the calls' order.
pub proof fn law_streamed_next_request(
    deltas: Seq<Seq<char>>,
    blocks: Seq<BlockView>,
    stop: Option<Seq<char>>,
    req0: LlmRequest,
    a1: AgentLoop,
    a2: AgentLoop,
    a3: AgentLoop,
    req1: LlmRequest,
)
    requires
        deltas.flatten().len() > 0,
        !has_text_block(blocks),
        block_calls(blocks).len() > 0,
        messages_view(a1.messages@) == messages_view(req0.messages@).push(
            MessageView {
                role: Role::Assistant,
                content: ContentView::Blocks(
                    kept_blocks(run_turn(empty_turn(), reply_events(deltas, blocks, stop))),
                ),
            },
        ),
        calls_view(a1.calls@) == kept_calls(run_turn(empty_turn(), reply_events(deltas, blocks, stop))),
        a2.wf(),
        a2.calls == a1.calls,
        messages_view(a2.messages@) == messages_view(a1.messages@),
        a2.results@.len() == a2.calls@.len(),
        messages_view(a3.messages@) == messages_view(a2.messages@).push(
            MessageView { role: Role::User, content: ContentView::Blocks(blocks_view(a2.results@)) },
        ),
        messages_view(req1.messages@) == messages_view(a3.messages@),
    ensures
        messages_view(req1.messages@) == messages_view(req0.messages@) + seq![
            MessageView {
                role: Role::Assistant,
                content: ContentView::Blocks(seq![BlockView::Text(deltas.flatten())] + blocks),
            },
            MessageView { role: Role::User, content: ContentView::Blocks(blocks_view(a2.results@)) },
        ],
        blocks_view(a2.results@).len() == block_calls(blocks).len(),
        forall|i: int|
            0 <= i < block_calls(blocks).len() ==> (#[trigger] blocks_view(a2.results@)[i]) is ToolResult
                && blocks_view(a2.results@)[i]->ToolResult_0 == block_calls(blocks)[i].0,
{
    let t0 = empty_turn();
    let de = deltas.map_values(|x: Seq<char>| EventView::TextDelta(x));
    let be = blocks.map_values(|b: BlockView| EventView::BlockComplete(b));
    let evs = reply_events(deltas, blocks, stop);
    lemma_run_deltas(t0, deltas);
    let t1 = run_turn(t0, de);
    assert(t1 == (deltas.flatten(), Seq::<BlockView>::empty(), Seq::<CallView>::empty(), false, false)) by {
        assert(t0.0 + deltas.flatten() =~= deltas.flatten());
    }
    lemma_run_blocks(t1, blocks);
    lemma_run_turn_concat(t0, de, be);
    let t2 = run_turn(t0, de + be);
    assert(t2.1 =~= blocks);
    assert(t2.2 =~= block_calls(blocks));
    assert(evs.drop_last() =~= de + be);
    assert(evs.last() == EventView::Done(stop));
    let turn = run_turn(t0, evs);
    assert(turn.1 =~= seq![BlockView::Text(deltas.flatten())] + blocks);
    assert(turn_blocks(turn) == turn.1);
    law_next_request(req0, turn, a1, a2, a3, req1);
}

} // verus!
