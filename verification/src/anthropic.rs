//! The Anthropic Messages API: endpoint, request shape and the server-sent
//! event stream decoded into stream events.
use vstd::prelude::*;
use crate::tools::{lossy_text, utf8_lossy};
use crate::json::{
    json_clone, json_empty_object, json_get, json_parse, json_tree, obj_get, parse_json, str_field,
    str_member, JsonTree,
};
use crate::llm::{
    duplicate_messages, events_view, messages_view, BlockView, ContentBlock, EventView, LlmRequest,
    Message, StreamEvent,
};
use crate::text::{
    after_prefix, chars_of, find_chars, find, occurs_at, lemma_find_from, lemma_find_extend, lines, lines_of, push_all, push_str,
    slice_range, string_of, strip_prefix_chars, trim_end_char, trim_end_chars,
};
use crate::tasks::slice_eq;

verus! {

/// The Messages endpoint under a base URL (trailing slashes dropped).
pub open spec fn messages_url(base: Seq<char>) -> Seq<char> {
    trim_end_char(base, '/') + "/v1/messages"@
}

/// URL of the Messages endpoint.
pub fn anthropic_url(base_url: &str) -> (r: String)
    ensures
        r@ == messages_url(base_url@),
{
    let b = chars_of(base_url);
    let mut out = trim_end_chars(b.as_slice(), '/');
    push_str(&mut out, "/v1/messages");
    string_of(out.as_slice())
}

/// The body of a Messages request (`stream` is left out of the JSON when false).
#[derive(Debug)]
pub struct AnthropicRequest {
    pub model: String,
    pub system: String,
    pub max_tokens: u32,
    pub messages: Vec<Message>,
    pub tools: Vec<serde_json::Value>,
    pub stream: bool,
}

/// Builds the Messages request body for a completion request.
pub fn build_request(request: &LlmRequest, stream: bool) -> (r: AnthropicRequest)
    ensures
        r.model@ == request.model@,
        r.system@ == request.system@,
        r.max_tokens == request.max_tokens,
        messages_view(r.messages@) == messages_view(request.messages@),
        r.tools@.map_values(|t: serde_json::Value| json_tree(t)) == request.tools@.map_values(
            |t: serde_json::Value| json_tree(t),
        ),
        r.stream == stream,
{
    let mut tools: Vec<serde_json::Value> = Vec::new();
    let mut i: usize = 0;
    while i < request.tools.len()
        invariant
            i <= request.tools@.len(),
            tools@.map_values(|t: serde_json::Value| json_tree(t)) == request.tools@.take(
                i as int,
            ).map_values(|t: serde_json::Value| json_tree(t)),
        decreases request.tools@.len() - i,
    {
        let ghost before = tools@;
        tools.push(json_clone(&request.tools[i]));
        proof {
            assert(tools@.map_values(|t: serde_json::Value| json_tree(t)) =~= before.map_values(
                |t: serde_json::Value| json_tree(t),
            ).push(json_tree(request.tools@[i as int])));
            assert(request.tools@.take(i + 1) =~= request.tools@.take(i as int).push(
                request.tools@[i as int],
            ));
            assert(request.tools@.take(i + 1).map_values(|t: serde_json::Value| json_tree(t))
                =~= request.tools@.take(i as int).map_values(|t: serde_json::Value| json_tree(t)).push(
                json_tree(request.tools@[i as int]),
            ));
        }
        i = i + 1;
    }
    proof {
        assert(request.tools@.take(i as int) =~= request.tools@);
    }
    AnthropicRequest {
        model: request.model.clone(),
        system: request.system.clone(),
        max_tokens: request.max_tokens,
        messages: duplicate_messages(&request.messages),
        tools,
        stream,
    }
}

/// The event type of an SSE block: the text after `event: ` on its last such line.
pub open spec fn sse_event_type(ls: Seq<Seq<char>>) -> Option<Seq<char>>
    decreases ls.len(),
{
    if ls.len() == 0 {
        None
    } else {
        match after_prefix(ls.last(), "event: "@) {
            Some(t) => Some(t),
            None => sse_event_type(ls.drop_last()),
        }
    }
}

/// The data of an SSE block: the text after `data: ` on each data line, joined
/// without separators.
pub open spec fn sse_data(ls: Seq<Seq<char>>) -> Seq<char>
    decreases ls.len(),
{
    if ls.len() == 0 {
        Seq::empty()
    } else {
        sse_data(ls.drop_last()) + if after_prefix(ls.last(), "event: "@) is Some {
            Seq::empty()
        } else {
            match after_prefix(ls.last(), "data: "@) {
                Some(d) => d,
                None => Seq::empty(),
            }
        }
    }
}

/// A tool call being received: id, name and the JSON text of its input so far.
pub type PendingView = Option<(Seq<char>, Seq<char>, Seq<char>)>;

/// Views of the pending tool call.
pub open spec fn pending_view(p: Option<(String, String, String)>) -> PendingView {
    match p {
        Some(t) => Some((t.0@, t.1@, t.2@)),
        None => None,
    }
}

/// A completed thinking block for accumulated thinking text, if there is any.
pub open spec fn flush_thinking(th: Seq<char>) -> Seq<EventView> {
    if th.len() > 0 {
        seq![EventView::BlockComplete(BlockView::Thinking(th))]
    } else {
        Seq::empty()
    }
}

/// A tool call's input from its accumulated JSON text: `{}` when empty or invalid.
pub open spec fn tool_input_tree(j: Seq<char>) -> JsonTree {
    if j.len() == 0 {
        JsonTree::Obj(Map::empty())
    } else {
        match json_parse(j) {
            Some(t) => t,
            None => JsonTree::Obj(Map::empty()),
        }
    }
}

/// The pending tool call after a `content_block_start` whose data is `data`.
pub open spec fn started_tool(data: Seq<char>, pending: PendingView) -> PendingView {
    match json_parse(data) {
        Some(v) => match obj_get(v, "content_block"@) {
            Some(cb) => if str_member(cb, "type"@) == Some("tool_use"@) {
                match (str_member(cb, "id"@), str_member(cb, "name"@)) {
                    (Some(i), Some(n)) => Some((i, n, Seq::empty())),
                    _ => pending,
                }
            } else {
                pending
            },
            None => pending,
        },
        None => pending,
    }
}

/// What a `content_block_delta` with `data` yields: events, pending call, thinking.
pub open spec fn delta_step(data: Seq<char>, pending: PendingView, th: Seq<char>) -> (
    Seq<EventView>,
    PendingView,
    Seq<char>,
) {
    match json_parse(data) {
        Some(v) => match obj_get(v, "delta"@) {
            Some(d) => match str_member(d, "type"@) {
                Some(ty) => if ty == "text_delta"@ {
                    (
                        flush_thinking(th) + match str_member(d, "text"@) {
                            Some(t) => seq![EventView::TextDelta(t)],
                            None => Seq::empty(),
                        },
                        pending,
                        if th.len() > 0 {
                            Seq::empty()
                        } else {
                            th
                        },
                    )
                } else if ty == "input_json_delta"@ {
                    (
                        Seq::empty(),
                        match pending {
                            Some(p) => match str_member(d, "partial_json"@) {
                                Some(x) => Some((p.0, p.1, p.2 + x)),
                                None => pending,
                            },
                            None => None,
                        },
                        th,
                    )
                } else if ty == "thinking_delta"@ {
                    (
                        Seq::empty(),
                        pending,
                        match str_member(d, "thinking"@) {
                            Some(x) => th + x,
                            None => th,
                        },
                    )
                } else {
                    (Seq::empty(), pending, th)
                },
                None => (Seq::empty(), pending, th),
            },
            None => (Seq::empty(), pending, th),
        },
        None => (Seq::empty(), pending, th),
    }
}

/// What one SSE block yields in the Anthropic stream: the events to emit, the
/// pending tool call and the accumulated thinking text afterwards.
pub open spec fn sse_block_step(block: Seq<char>, pending: PendingView, th: Seq<char>) -> (
    Seq<EventView>,
    PendingView,
    Seq<char>,
) {
    let ls = lines_of(block);
    let data = sse_data(ls);
    let flushed = if th.len() > 0 {
        Seq::empty()
    } else {
        th
    };
    match sse_event_type(ls) {
        None => (Seq::empty(), pending, th),
        Some(et) => if et == "content_block_start"@ {
            (flush_thinking(th), started_tool(data, pending), flushed)
        } else if et == "content_block_delta"@ {
            delta_step(data, pending, th)
        } else if et == "content_block_stop"@ {
            match pending {
                Some(p) => (
                    seq![EventView::BlockComplete(BlockView::ToolUse(p.0, p.1, tool_input_tree(p.2)))],
                    None,
                    th,
                ),
                None => (Seq::empty(), None, th),
            }
        } else if et == "message_stop"@ {
            (flush_thinking(th).push(EventView::Done(None)), pending, flushed)
        } else if et == "message_delta"@ {
            match json_parse(data) {
                Some(v) => (
                    seq![
                        EventView::Done(
                            match obj_get(v, "delta"@) {
                                Some(d) => str_member(d, "stop_reason"@),
                                None => None,
                            },
                        ),
                    ],
                    pending,
                    th,
                ),
                None => (Seq::empty(), pending, th),
            }
        } else if et == "error"@ {
            (seq![EventView::Error(data)], pending, th)
        } else {
            (Seq::empty(), pending, th)
        },
    }
}

/// The thinking text that a `content_block_delta`'s data carries, when its
/// delta is a `thinking_delta`.
pub open spec fn thinking_fragment(data: Seq<char>) -> Option<Seq<char>> {
    match json_parse(data) {
        Some(v) => match obj_get(v, "delta"@) {
            Some(d) => if str_member(d, "type"@) == Some("thinking_delta"@) {
                str_member(d, "thinking"@)
            } else {
                None
            },
            None => None,
        },
        None => None,
    }
}

/// A thinking delta appends its text to the thinking gathered so far, and
/// neither emits anything nor touches the pending tool call.
pub proof fn law_thinking_delta_appends(data: Seq<char>, pending: PendingView, th: Seq<char>)
    requires
        thinking_fragment(data) is Some,
    ensures
        delta_step(data, pending, th) == (
            Seq::<EventView>::empty(),
            pending,
            th + thinking_fragment(data)->0,
        ),
{
    reveal_strlit("thinking_delta");
    reveal_strlit("text_delta");
    reveal_strlit("input_json_delta");
    assert("thinking_delta"@.len() != "text_delta"@.len());
    assert("thinking_delta"@.len() != "input_json_delta"@.len());
}

/// The SSE blocks `bs` taken in one after another (`parse_sse_block_with_state`):
/// all the events, then the pending call and thinking text left.
pub open spec fn run_blocks(bs: Seq<Seq<char>>, pending: PendingView, th: Seq<char>) -> (
    Seq<EventView>,
    PendingView,
    Seq<char>,
)
    decreases bs.len(),
{
    if bs.len() == 0 {
        (Seq::empty(), pending, th)
    } else {
        let (e1, p1, t1) = run_blocks(bs.drop_last(), pending, th);
        let (e2, p2, t2) = sse_block_step(bs.last(), p1, t1);
        (e1 + e2, p2, t2)
    }
}

/// The block is a `content_block_delta` whose delta is thinking text.
pub open spec fn is_thinking_block(b: Seq<char>) -> bool {
    &&& sse_event_type(lines_of(b)) == Some("content_block_delta"@)
    &&& thinking_fragment(sse_data(lines_of(b))) is Some
}

/// Thinking delta blocks gather their texts in order and emit nothing.
proof fn lemma_thinking_blocks(bs: Seq<Seq<char>>, pending: PendingView, th: Seq<char>)
    requires
        forall|i: int| 0 <= i < bs.len() ==> is_thinking_block(#[trigger] bs[i]),
    ensures
        run_blocks(bs, pending, th) == (
            Seq::<EventView>::empty(),
            pending,
            th + bs.map_values(|b: Seq<char>| thinking_fragment(sse_data(lines_of(b)))->0).flatten(),
        ),
    decreases bs.len(),
{
    let f = |b: Seq<char>| thinking_fragment(sse_data(lines_of(b)))->0;
    if bs.len() == 0 {
        assert(th + bs.map_values(f).flatten() =~= th);
    } else {
        let d = bs.drop_last();
        assert forall|i: int| 0 <= i < d.len() implies is_thinking_block(#[trigger] d[i]) by {
            assert(d[i] == bs[i]);
        }
        lemma_thinking_blocks(d, pending, th);
        let b = bs.last();
        assert(is_thinking_block(bs[bs.len() - 1]));
        let t1 = th + d.map_values(f).flatten();
        reveal_strlit("content_block_start");
        reveal_strlit("content_block_delta");
        assert("content_block_start"@ != "content_block_delta"@) by {
            assert("content_block_start"@[14] != "content_block_delta"@[14]);
        }
        law_thinking_delta_appends(sse_data(lines_of(b)), pending, t1);
        assert(bs.map_values(f) =~= d.map_values(f).push(f(b)));
        d.map_values(f).lemma_flatten_push(f(b));
        assert(t1 + f(b) =~= th + bs.map_values(f).flatten());
        assert(Seq::<EventView>::empty() + Seq::<EventView>::empty() =~= Seq::<EventView>::empty());
    }
}

/// Thinking is accumulated, never replaced: after thinking delta blocks and a
/// `message_stop`, the events are one thinking block holding the thinking
/// gathered before and every delta's text in order (none when all of it is
/// empty), then `Done`.
pub proof fn law_thinking_gathered_then_flushed(
    deltas: Seq<Seq<char>>,
    stop: Seq<char>,
    pending: PendingView,
    th: Seq<char>,
)
    requires
        forall|i: int| 0 <= i < deltas.len() ==> is_thinking_block(#[trigger] deltas[i]),
        sse_event_type(lines_of(stop)) == Some("message_stop"@),
    ensures
        ({
            let all = th + deltas.map_values(
                |b: Seq<char>| thinking_fragment(sse_data(lines_of(b)))->0,
            ).flatten();
            run_blocks(deltas.push(stop), pending, th).0 == if all.len() > 0 {
                seq![EventView::BlockComplete(BlockView::Thinking(all)), EventView::Done(None)]
            } else {
                seq![EventView::Done(None)]
            }
        }),
{
    lemma_thinking_blocks(deltas, pending, th);
    assert(deltas.push(stop).drop_last() =~= deltas);
    reveal_strlit("message_stop");
    reveal_strlit("content_block_start");
    reveal_strlit("content_block_delta");
    reveal_strlit("content_block_stop");
    assert("message_stop"@.len() != "content_block_start"@.len());
    assert("message_stop"@.len() != "content_block_delta"@.len());
    assert("message_stop"@.len() != "content_block_stop"@.len());
    let all = th + deltas.map_values(|b: Seq<char>| thinking_fragment(sse_data(lines_of(b)))->0).flatten();
    if all.len() > 0 {
        assert(Seq::<EventView>::empty() + seq![EventView::BlockComplete(BlockView::Thinking(all))].push(
            EventView::Done(None),
        ) =~= seq![EventView::BlockComplete(BlockView::Thinking(all)), EventView::Done(None)]);
    } else {
        assert(Seq::<EventView>::empty() + Seq::<EventView>::empty().push(EventView::Done(None))
            =~= seq![EventView::Done(None)]);
    }
}

/// Reads the event type and data of an SSE block.
fn block_fields(block: &str) -> (r: (Option<Vec<char>>, Vec<char>))
    ensures
        match r.0 {
            Some(t) => sse_event_type(lines_of(block@)) == Some(t@),
            None => sse_event_type(lines_of(block@)) is None,
        },
        r.1@ == sse_data(lines_of(block@)),
{
    let cs = chars_of(block);
    let ls = lines(cs.as_slice());
    let ghost lv = lines_of(block@);
    let ev = chars_of("event: ");
    let da = chars_of("data: ");
    let mut et: Option<Vec<char>> = None;
    let mut data: Vec<char> = Vec::new();
    let mut i: usize = 0;
    proof {
        assert(lv.take(0) =~= Seq::<Seq<char>>::empty());
    }
    while i < ls.len()
        invariant
            i <= ls@.len(),
            ls@.len() == lv.len(),
            forall|j: int| 0 <= j < ls@.len() ==> #[trigger] ls@[j]@ == lv[j],
            ev@ == "event: "@,
            da@ == "data: "@,
            match et {
                Some(t) => sse_event_type(lv.take(i as int)) == Some(t@),
                None => sse_event_type(lv.take(i as int)) is None,
            },
            data@ == sse_data(lv.take(i as int)),
        decreases ls@.len() - i,
    {
        proof {
            assert(lv.take(i + 1).drop_last() =~= lv.take(i as int));
            assert(lv.take(i + 1).last() == ls@[i as int]@);
        }
        match strip_prefix_chars(ls[i].as_slice(), ev.as_slice()) {
            Some(t) => {
                et = Some(t);
                proof {
                    assert(data@ =~= sse_data(lv.take(i as int)) + Seq::<char>::empty());
                }
            },
            None => match strip_prefix_chars(ls[i].as_slice(), da.as_slice()) {
                Some(d) => {
                    push_all(&mut data, d.as_slice());
                },
                None => {
                    proof {
                        assert(data@ =~= sse_data(lv.take(i as int)) + Seq::<char>::empty());
                    }
                },
            },
        }
        i = i + 1;
    }
    proof {
        assert(lv.take(i as int) =~= lv);
    }
    (et, data)
}

/// Whether two character slices hold the same text as a literal.
fn is_text(s: &[char], lit: &str) -> (b: bool)
    ensures
        b == (s@ == lit@),
{
    let l = chars_of(lit);
    slice_eq(s, l.as_slice())
}

/// A thinking block for the accumulated thinking text, clearing it.
fn take_thinking(th: &mut String, out: &mut Vec<StreamEvent>)
    ensures
        events_view(final(out)@) == events_view(old(out)@) + flush_thinking(old(th)@),
        final(th)@ == if old(th)@.len() > 0 {
            Seq::<char>::empty()
        } else {
            old(th)@
        },
{
    let cs = chars_of(th.as_str());
    if cs.len() > 0 {
        let t = th.clone();
        let ghost before = out@;
        out.push(StreamEvent::BlockComplete(ContentBlock::Thinking { thinking: t }));
        *th = String::new();
        proof {
            assert(events_view(out@) =~= events_view(before) + flush_thinking(old(th)@));
        }
    } else {
        proof {
            assert(events_view(out@) =~= events_view(out@) + Seq::<EventView>::empty());
        }
    }
}

/// The tool call's input value from its accumulated JSON text.
fn tool_input(j: &str) -> (v: serde_json::Value)
    ensures
        json_tree(v) == tool_input_tree(j@),
{
    let cs = chars_of(j);
    if cs.len() == 0 {
        return json_empty_object();
    }
    match parse_json(j) {
        Some(v) => v,
        None => json_empty_object(),
    }
}

/// Handles one SSE block of the Anthropic stream: updates the pending tool call
/// and the accumulated thinking text, and returns the events it completes.
pub fn parse_sse_block_with_state(
    block: &str,
    pending_tool: &mut Option<(String, String, String)>,
    thinking_content: &mut String,
) -> (r: Vec<StreamEvent>)
    ensures
        (events_view(r@), pending_view(*final(pending_tool)), final(thinking_content)@)
            == sse_block_step(block@, pending_view(*old(pending_tool)), old(thinking_content)@),
{
    let (et, data) = block_fields(block);
    let mut out: Vec<StreamEvent> = Vec::new();
    let et = match et {
        Some(t) => t,
        None => {
            proof {
                assert(events_view(out@) =~= Seq::<EventView>::empty());
            }
            return out;
        },
    };
    let data_s = string_of(data.as_slice());
    if is_text(et.as_slice(), "content_block_start") {
        take_thinking(thinking_content, &mut out);
        match parse_json(data_s.as_str()) {
            Some(v) => match json_get(&v, "content_block") {
                Some(cb) => {
                    let is_tool = match str_field(cb, "type") {
                        Some(ty) => {
                            let tc = chars_of(ty.as_str());
                            is_text(tc.as_slice(), "tool_use")
                        },
                        None => false,
                    };
                    if is_tool {
                        match (str_field(cb, "id"), str_field(cb, "name")) {
                            (Some(i), Some(n)) => {
                                *pending_tool = Some((i, n, String::new()));
                            },
                            _ => {},
                        }
                    }
                },
                None => {},
            },
            None => {},
        }
        proof {
            assert(events_view(out@) =~= Seq::<EventView>::empty() + flush_thinking(
                old(thinking_content)@,
            ));
        }
        return out;
    }
    if is_text(et.as_slice(), "content_block_delta") {
        delta_block(data_s.as_str(), pending_tool, thinking_content, &mut out);
        return out;
    }
    if is_text(et.as_slice(), "content_block_stop") {
        match pending_tool.take() {
            Some((id, name, js)) => {
                let input = tool_input(js.as_str());
                out.push(StreamEvent::BlockComplete(ContentBlock::ToolUse { id, name, input }));
                proof {
                    let ghost pv = pending_view(*old(pending_tool))->0;
                    assert(events_view(out@) =~= seq![
                        EventView::BlockComplete(
                            BlockView::ToolUse(pv.0, pv.1, tool_input_tree(pv.2)),
                        ),
                    ]);
                }
            },
            None => {
                proof {
                    assert(events_view(out@) =~= Seq::<EventView>::empty());
                }
            },
        }
        return out;
    }
    if is_text(et.as_slice(), "message_stop") {
        take_thinking(thinking_content, &mut out);
        let ghost before = out@;
        out.push(StreamEvent::Done { stop_reason: None });
        proof {
            assert(events_view(out@) =~= events_view(before).push(EventView::Done(None)));
            assert(events_view(before) =~= Seq::<EventView>::empty() + flush_thinking(
                old(thinking_content)@,
            ));
        }
        return out;
    }
    if is_text(et.as_slice(), "message_delta") {
        match parse_json(data_s.as_str()) {
            Some(v) => {
                let stop = match json_get(&v, "delta") {
                    Some(d) => str_field(d, "stop_reason"),
                    None => None,
                };
                out.push(StreamEvent::Done { stop_reason: stop });
                proof {
                    assert(events_view(out@) =~= seq![
                        EventView::Done(
                            match obj_get(json_tree(v), "delta"@) {
                                Some(d) => str_member(d, "stop_reason"@),
                                None => None,
                            },
                        ),
                    ]);
                }
            },
            None => {
                proof {
                    assert(events_view(out@) =~= Seq::<EventView>::empty());
                }
            },
        }
        return out;
    }
    if is_text(et.as_slice(), "error") {
        out.push(StreamEvent::Error(data_s));
        proof {
            assert(events_view(out@) =~= seq![EventView::Error(data@)]);
        }
        return out;
    }
    proof {
        assert(events_view(out@) =~= Seq::<EventView>::empty());
    }
    out
}

/// Handles a `content_block_delta` with the given data.
fn delta_block(
    data: &str,
    pending_tool: &mut Option<(String, String, String)>,
    th: &mut String,
    out: &mut Vec<StreamEvent>,
)
    requires
        old(out)@.len() == 0,
    ensures
        (events_view(final(out)@), pending_view(*final(pending_tool)), final(th)@) == delta_step(
            data@,
            pending_view(*old(pending_tool)),
            old(th)@,
        ),
{
    proof {
        assert(events_view(out@) =~= Seq::<EventView>::empty());
    }
    let v = match parse_json(data) {
        Some(v) => v,
        None => {
            return;
        },
    };
    let d = match json_get(&v, "delta") {
        Some(d) => d,
        None => {
            return;
        },
    };
    let ty = match str_field(d, "type") {
        Some(t) => chars_of(t.as_str()),
        None => {
            return;
        },
    };
    if is_text(ty.as_slice(), "text_delta") {
        take_thinking(th, out);
        match str_field(d, "text") {
            Some(t) => {
                let ghost before = out@;
                out.push(StreamEvent::TextDelta(t));
                proof {
                    assert(events_view(out@) =~= events_view(before).push(EventView::TextDelta(
                        str_member(json_tree(*d), "text"@)->0,
                    )));
                    assert(events_view(out@) =~= flush_thinking(old(th)@) + seq![
                        EventView::TextDelta(str_member(json_tree(*d), "text"@)->0),
                    ]);
                }
            },
            None => {
                proof {
                    assert(events_view(out@) =~= flush_thinking(old(th)@) + Seq::<EventView>::empty());
                }
            },
        }
    } else if is_text(ty.as_slice(), "input_json_delta") {
        let has_pending = pending_tool.is_some();
        if has_pending {
            match str_field(d, "partial_json") {
                Some(p) => {
                    let (i, n, js) = pending_tool.take().unwrap();
                    let mut jc = chars_of(js.as_str());
                    push_str(&mut jc, p.as_str());
                    *pending_tool = Some((i, n, string_of(jc.as_slice())));
                },
                None => {},
            }
        }
    } else if is_text(ty.as_slice(), "thinking_delta") {
        match str_field(d, "thinking") {
            Some(x) => {
                let mut tc = chars_of(th.as_str());
                push_str(&mut tc, x.as_str());
                *th = string_of(tc.as_slice());
            },
            None => {},
        }
    }
}


/// The events up to and including the first `Done`, and whether there was one.
pub open spec fn until_done(evs: Seq<EventView>) -> (Seq<EventView>, bool)
    decreases evs.len(),
{
    if evs.len() == 0 {
        (Seq::empty(), false)
    } else {
        let (a, d) = until_done(evs.drop_last());
        if d {
            (a, true)
        } else {
            (a.push(evs.last()), evs.last() is Done)
        }
    }
}

/// What the buffered stream text `s` yields: every complete block (ended by a
/// blank line) is handled in order until one completes the message. Gives the
/// events, the text left buffered, the pending call, the thinking text, and
/// whether the message is done.
pub open spec fn drain(s: Seq<char>, p: PendingView, th: Seq<char>) -> (
    Seq<EventView>,
    Seq<char>,
    PendingView,
    Seq<char>,
    bool,
)
    decreases s.len(),
{
    match find(s, "\n\n"@) {
        None => (Seq::empty(), s, p, th, false),
        Some(pos) => {
            proof {
                lemma_find_from(s, "\n\n"@, 0);
                reveal_strlit("\n\n");
            }
            let (evs, p1, th1) = sse_block_step(s.take(pos), p, th);
            let (emitted, done) = until_done(evs);
            if done {
                (emitted, s.skip(pos + 2), p1, th1, true)
            } else {
                let (e2, r2, p2, th2, d2) = drain(s.skip(pos + 2), p1, th1);
                (emitted + e2, r2, p2, th2, d2)
            }
        },
    }
}

/// The state of an Anthropic event stream being decoded.
#[derive(Debug)]
pub struct AnthropicSseDecoder {
    pub buf: String,
    pub pending_tool: Option<(String, String, String)>,
    pub thinking: String,
    pub done: bool,
}

/// Keeps the events up to and including the first `Done`.
fn keep_until_done(evs: Vec<StreamEvent>, out: &mut Vec<StreamEvent>) -> (done: bool)
    ensures
        events_view(final(out)@) == events_view(old(out)@) + until_done(events_view(evs@)).0,
        done == until_done(events_view(evs@)).1,
{
    let ghost ev = events_view(evs@);
    let mut rest = evs;
    let mut rev: Vec<StreamEvent> = Vec::new();
    let total = rest.len();
    while rest.len() > 0
        invariant
            rest@.len() + rev@.len() == total,
            total == ev.len(),
            ev == events_view(evs@),
            forall|j: int| 0 <= j < rest@.len() ==> (#[trigger] rest@[j])@ == ev[j],
            forall|j: int| 0 <= j < rev@.len() ==> (#[trigger] rev@[j])@ == ev[total - 1 - j],
        decreases rest@.len(),
    {
        let x = rest.pop().unwrap();
        rev.push(x);
    }
    let mut k: usize = 0;
    let ghost base = events_view(out@);
    proof {
        assert(ev.take(0) =~= Seq::<EventView>::empty());
        assert(events_view(out@) =~= base + until_done(ev.take(0)).0);
    }
    while k < total
        invariant
            total == ev.len(),
            ev == events_view(evs@),
            base == events_view(old(out)@),
            k <= total,
            rev@.len() == total - k,
            forall|j: int| 0 <= j < rev@.len() ==> (#[trigger] rev@[j])@ == ev[total - 1 - j],
            events_view(out@) == base + until_done(ev.take(k as int)).0,
            !until_done(ev.take(k as int)).1,
        decreases total - k,
    {
        let x = rev.pop().unwrap();
        proof {
            assert(x@ == ev[k as int]);
            assert(ev.take(k + 1).drop_last() =~= ev.take(k as int));
            assert(ev.take(k + 1).last() == ev[k as int]);
        }
        let is_done = match &x {
            StreamEvent::Done { .. } => true,
            _ => false,
        };
        let ghost before = out@;
        proof {
            assert(is_done == (x@ is Done));
            assert(until_done(ev.take(k + 1)) == (
                until_done(ev.take(k as int)).0.push(ev[k as int]),
                ev[k as int] is Done,
            ));
        }
        out.push(x);
        proof {
            assert(events_view(out@) =~= events_view(before).push(x@));
            assert(events_view(out@) =~= base + until_done(ev.take(k + 1)).0);
        }
        k = k + 1;
        if is_done {
            proof {
                assert(until_done(ev.take(k as int)).1);
                lemma_until_done_stays(ev, k as int);
                assert(until_done(ev) == until_done(ev.take(k as int)));
                assert(ev == events_view(evs@));
            }
            return true;
        }
    }
    proof {
        assert(ev.take(k as int) =~= ev);
    }
    false
}

/// Once a `Done` is reached, later events change nothing.
pub proof fn lemma_until_done_stays(ev: Seq<EventView>, k: int)
    requires
        0 <= k <= ev.len(),
        until_done(ev.take(k)).1,
    ensures
        until_done(ev) == until_done(ev.take(k)),
    decreases ev.len() - k,
{
    if k == ev.len() {
        assert(ev.take(k) =~= ev);
    } else {
        assert(ev.take(k + 1).drop_last() =~= ev.take(k));
        lemma_until_done_stays(ev, k + 1);
    }
}

impl AnthropicSseDecoder {
    /// A decoder that has seen nothing yet.
    pub fn new() -> (d: AnthropicSseDecoder)
        ensures
            d.buf@ == Seq::<char>::empty(),
            d.pending_tool is None,
            d.thinking@ == Seq::<char>::empty(),
            !d.done,
    {
        AnthropicSseDecoder {
            buf: String::new(),
            pending_tool: None,
            thinking: String::new(),
            done: false,
        }
    }

    /// Takes in the next chunk of stream bytes, decoded as UTF-8 with invalid
    /// sequences replaced (`String::from_utf8_lossy`), as `feed` takes text.
    pub fn feed_bytes(&mut self, chunk: &[u8]) -> (r: Vec<StreamEvent>)
        ensures
            old(self).done ==> r@.len() == 0 && final(self).buf@ == old(self).buf@ && pending_view(
                final(self).pending_tool,
            ) == pending_view(old(self).pending_tool) && final(self).thinking@ == old(self).thinking@
                && final(self).done,
            !old(self).done ==> (
                events_view(r@),
                final(self).buf@,
                pending_view(final(self).pending_tool),
                final(self).thinking@,
                final(self).done,
            ) == drain(
                old(self).buf@ + utf8_lossy(chunk@),
                pending_view(old(self).pending_tool),
                old(self).thinking@,
            ),
    {
        let text = lossy_text(chunk);
        self.feed(text.as_str())
    }

    /// Takes in the next chunk of stream text and returns the events it
    /// completes; after a `Done` the stream is finished.
    pub fn feed(&mut self, chunk: &str) -> (r: Vec<StreamEvent>)
        ensures
            old(self).done ==> r@.len() == 0 && final(self).buf@ == old(self).buf@ && pending_view(
                final(self).pending_tool,
            ) == pending_view(old(self).pending_tool) && final(self).thinking@ == old(self).thinking@
                && final(self).done,
            !old(self).done ==> (
                events_view(r@),
                final(self).buf@,
                pending_view(final(self).pending_tool),
                final(self).thinking@,
                final(self).done,
            ) == drain(
                old(self).buf@ + chunk@,
                pending_view(old(self).pending_tool),
                old(self).thinking@,
            ),
    {
        if self.done {
            return Vec::new();
        }
        let mut s = chars_of(self.buf.as_str());
        push_str(&mut s, chunk);
        let sep = chars_of("\n\n");
        proof {
            reveal_strlit("\n\n");
        }
        let mut out: Vec<StreamEvent> = Vec::new();
        let ghost total = drain(
            old(self).buf@ + chunk@,
            pending_view(old(self).pending_tool),
            old(self).thinking@,
        );
        proof {
            assert(events_view(out@) =~= Seq::<EventView>::empty());
        }
        loop
            invariant
                sep@ == "\n\n"@,
                !old(self).done,
                total == drain(
                    old(self).buf@ + chunk@,
                    pending_view(old(self).pending_tool),
                    old(self).thinking@,
                ),
                total == (
                    events_view(out@) + drain(s@, pending_view(self.pending_tool), self.thinking@).0,
                    drain(s@, pending_view(self.pending_tool), self.thinking@).1,
                    drain(s@, pending_view(self.pending_tool), self.thinking@).2,
                    drain(s@, pending_view(self.pending_tool), self.thinking@).3,
                    drain(s@, pending_view(self.pending_tool), self.thinking@).4,
                ),
            decreases s@.len(),
        {
            proof {
                lemma_find_from(s@, sep@, 0);
            }
            match find_chars(s.as_slice(), sep.as_slice()) {
                None => {
                    proof {
                        assert(find(s@, "\n\n"@) is None);
                        assert(drain(s@, pending_view(self.pending_tool), self.thinking@) == (
                            Seq::<EventView>::empty(),
                            s@,
                            pending_view(self.pending_tool),
                            self.thinking@,
                            false,
                        ));
                        assert(events_view(out@) + Seq::<EventView>::empty() =~= events_view(out@));
                    }
                    self.buf = string_of(s.as_slice());
                    self.done = false;
                    return out;
                },
                Some(pos) => {
                    let sl = s.len();
                    proof {
                        reveal_strlit("\n\n");
                        assert(occurs_at(s@, sep@, pos as int));
                        assert(pos + 2 <= sl);
                    }
                    let block = slice_range(s.as_slice(), 0, pos);
                    let rest = slice_range(s.as_slice(), pos + 2, sl);
                    proof {
                        assert(block@ =~= s@.take(pos as int));
                        assert(rest@ =~= s@.skip(pos + 2));
                    }
                    let bs = string_of(block.as_slice());
                    let ghost old_p = self.pending_tool;
                    let ghost old_th = self.thinking@;
                    let evs = parse_sse_block_with_state(
                        bs.as_str(),
                        &mut self.pending_tool,
                        &mut self.thinking,
                    );
                    let ghost before = events_view(out@);
                    let d = keep_until_done(evs, &mut out);
                    proof {
                        assert(find(s@, "\n\n"@) == Some(pos as int));
                        assert(sse_block_step(s@.take(pos as int), pending_view(old_p), old_th) == (
                            events_view(evs@),
                            pending_view(self.pending_tool),
                            self.thinking@,
                        ));
                    }
                    if d {
                        self.buf = string_of(rest.as_slice());
                        self.done = true;
                        return out;
                    }
                    proof {
                        assert(events_view(out@) + drain(rest@, pending_view(self.pending_tool), self.thinking@).0
                            =~= before + (until_done(events_view(evs@)).0 + drain(rest@, pending_view(self.pending_tool), self.thinking@).0));
                    }
                    s = rest;
                },
            }
        }
    }
}

/// Splitting the stream text anywhere changes nothing: what `s1 + s2` yields
/// is what `s1` yields, followed by what its leftover text with `s2` yields;
/// once the message is done, `s2` is only kept in the buffer.
pub proof fn law_drain_split(s1: Seq<char>, s2: Seq<char>, p: PendingView, th: Seq<char>)
    ensures
        ({
            let (e1, r1, p1, t1, d1) = drain(s1, p, th);
            if d1 {
                drain(s1 + s2, p, th) == (e1, r1 + s2, p1, t1, true)
            } else {
                let (e2, r2, p2, t2, d2) = drain(r1 + s2, p1, t1);
                drain(s1 + s2, p, th) == (e1 + e2, r2, p2, t2, d2)
            }
        }),
    decreases s1.len(),
{
    reveal_strlit("\n\n");
    lemma_find_from(s1, "\n\n"@, 0);
    match find(s1, "\n\n"@) {
        None => {
            assert(Seq::<EventView>::empty() + drain(s1 + s2, p, th).0 =~= drain(s1 + s2, p, th).0);
        },
        Some(pos) => {
            lemma_find_extend(s1, s2, "\n\n"@);
            let s = s1 + s2;
            assert(s.take(pos) =~= s1.take(pos));
            assert(s.skip(pos + 2) =~= s1.skip(pos + 2) + s2);
            let (evs, p1, th1) = sse_block_step(s1.take(pos), p, th);
            let (em, done) = until_done(evs);
            if !done {
                law_drain_split(s1.skip(pos + 2), s2, p1, th1);
                let (e1, r1, q1, t1, d1) = drain(s1.skip(pos + 2), p1, th1);
                if !d1 {
                    let (e2, r2, q2, t2, d2) = drain(r1 + s2, q1, t1);
                    assert(em + (e1 + e2) =~= (em + e1) + e2);
                }
            }
        },
    }
}

/// Feeding the stream in two pieces yields the events of feeding it at once.
pub proof fn law_feed_split(buf: Seq<char>, a: Seq<char>, b: Seq<char>, p: PendingView, th: Seq<char>)
    requires
        !drain(buf + a, p, th).4,
    ensures
        ({
            let (e1, r1, p1, t1, _) = drain(buf + a, p, th);
            let (e2, r2, p2, t2, d2) = drain(r1 + b, p1, t1);
            drain(buf + (a + b), p, th) == (e1 + e2, r2, p2, t2, d2)
        }),
{
    assert(buf + (a + b) =~= (buf + a) + b);
    law_drain_split(buf + a, b, p, th);
}

} // verus!
